use std::hash::Hasher;

use gpui_zgui::collections::TypeIdHasher;

#[test]
fn raw_bytes_are_folded_in_order() {
    let mut hasher = TypeIdHasher::default();
    hasher.write(&[0x12, 0x34, 0x56]);
    assert_eq!(hasher.finish(), 0x12_34_56);
    hasher.write(&[0xff]);
    assert_eq!(hasher.finish(), 0x12_34_56_ff);
}

#[test]
fn folding_rotates_the_oldest_byte_back_in() {
    let mut hasher = TypeIdHasher::default();
    hasher.write_u64(0xab00_0000_0000_0001);
    hasher.write(&[0x0f]);
    assert_eq!(hasher.finish(), 0x0000_0000_0000_01a4);
}

#[test]
fn an_identifier_is_forwarded_as_it_is() {
    let mut hasher = TypeIdHasher::default();
    hasher.write_u64(7);
    assert_eq!(hasher.finish(), 7);
    hasher.write_u128(0x1111_2222_3333_4444_5555_6666_7777_8888);
    assert_eq!(hasher.finish(), 0x5555_6666_7777_8888);
}
