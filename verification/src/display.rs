//! Monitors.

use vstd::prelude::*;
use vstd::string::StringExecFns;

use crate::scene::Bounds;
use crate::text::decimal;
use crate::text::to_decimal;

verus! {

/// The namespace display identifiers are derived in, so that they cannot collide with another
/// scheme's.
pub const DISPLAY_NAMESPACE: u128 = 0x9a1d_4f2b_7c36_4e88_b051_3d7a_6c94_2e11;

/// The bits of the number 1920.
pub const PLACEHOLDER_WIDTH: u32 = 0x44f0_0000;

/// The bits of the number 1080.
pub const PLACEHOLDER_HEIGHT: u32 = 0x4487_0000;

/// The name-based identifier of `name` in `namespace`.
pub uninterp spec fn uuid_v5(namespace: u128, name: Seq<u8>) -> u128;

/// Calls `uuid::Uuid::new_v5`: an identifier that is a function of the namespace and the name.
#[verifier::external_body]
fn new_v5(namespace: u128, name: &[u8]) -> (uuid: u128)
    ensures
        uuid == uuid_v5(namespace, name@),
{
    uuid::Uuid::new_v5(&uuid::Uuid::from_u128(namespace), name).as_u128()
}

/// One monitor.
#[derive(Clone, Copy, Debug, PartialEq, Eq, Structural)]
pub struct ZguiDisplay {
    id: u64,
    bounds: Bounds,
    /// Derived from the monitor's name, so it survives a restart as long as the name does. A
    /// monitor with no name falls back to its place in the enumeration, which does not survive
    /// replugging.
    uuid: u128,
}

/// The name a monitor goes by: its own, or one made from its place in the enumeration.
pub open spec fn monitor_name(index: usize, name: Option<Seq<char>>) -> Seq<char> {
    match name {
        Some(name) => name,
        None => "display-"@ + decimal(index as nat),
    }
}

fn name_or_index(index: usize, name: Option<String>) -> (known: String)
    ensures
        known@ == monitor_name(index, crate::input::text_view(name)),
{
    match name {
        Some(name) => name,
        None => {
            let mut made = String::from_str("display-");
            made.append(to_decimal(index as u64).as_str());
            made
        },
    }
}

impl ZguiDisplay {
    /// The monitor's place in the enumeration.
    pub closed spec fn spec_id(self) -> u64 {
        self.id
    }

    /// Where the monitor is, in logical pixels.
    pub closed spec fn spec_bounds(self) -> Bounds {
        self.bounds
    }

    /// The identifier derived from the monitor's name.
    pub closed spec fn spec_uuid(self) -> u128 {
        self.uuid
    }

    /// A display for the monitor numbered `index` in the platform's enumeration order, given its
    /// name where it has one and its bounds in logical pixels.
    pub fn new(index: usize, name: Option<String>, bounds: Bounds) -> (display: ZguiDisplay)
        ensures
            display.spec_id() == index,
            display.spec_bounds() == bounds,
            display.spec_uuid() == uuid_v5(
                DISPLAY_NAMESPACE,
                vstd::utf8::encode_utf8(monitor_name(index, crate::input::text_view(name))),
            ),
    {
        let known = name_or_index(index, name);
        let uuid = new_v5(DISPLAY_NAMESPACE, known.as_str().as_bytes());
        ZguiDisplay { id: index as u64, bounds, uuid }
    }

    /// A stand-in for when the window system enumerated no monitors at all.
    pub fn placeholder() -> (display: ZguiDisplay)
        ensures
            display.spec_id() == 0,
            display.spec_bounds() == (Bounds {
                x: 0,
                y: 0,
                width: PLACEHOLDER_WIDTH,
                height: PLACEHOLDER_HEIGHT,
            }),
            display.spec_uuid() == uuid_v5(
                DISPLAY_NAMESPACE,
                vstd::utf8::encode_utf8("placeholder"@),
            ),
    {
        let uuid = new_v5(DISPLAY_NAMESPACE, "placeholder".as_bytes());
        ZguiDisplay {
            id: 0,
            bounds: Bounds { x: 0, y: 0, width: PLACEHOLDER_WIDTH, height: PLACEHOLDER_HEIGHT },
            uuid,
        }
    }

    /// The first of the displays, or the stand-in where there is none.
    pub fn primary_or_placeholder(displays: &Vec<ZguiDisplay>) -> (display: ZguiDisplay)
        ensures
            displays@.len() > 0 ==> display == displays@[0],
            displays@.len() == 0 ==> display.spec_id() == 0 && display.spec_bounds() == (Bounds {
                x: 0,
                y: 0,
                width: PLACEHOLDER_WIDTH,
                height: PLACEHOLDER_HEIGHT,
            }) && display.spec_uuid() == uuid_v5(
                DISPLAY_NAMESPACE,
                vstd::utf8::encode_utf8("placeholder"@),
            ),
    {
        if displays.len() > 0 {
            displays[0]
        } else {
            ZguiDisplay::placeholder()
        }
    }

    /// The monitor's place in the enumeration.
    pub fn id(&self) -> (id: u64)
        ensures
            id == self.spec_id(),
    {
        self.id
    }

    /// The identifier derived from the monitor's name.
    pub fn uuid(&self) -> (uuid: u128)
        ensures
            uuid == self.spec_uuid(),
    {
        self.uuid
    }

    /// Where the monitor is, in logical pixels.
    pub fn bounds(&self) -> (bounds: Bounds)
        ensures
            bounds == self.spec_bounds(),
    {
        self.bounds
    }
}

/// A monitor goes by its own name where it has one, whatever its place. Two without a name go by
/// one name only where they have one place, and such a name starts with what says it was made up.
pub proof fn law_monitors_without_a_name_differ(one: usize, two: usize, name: Seq<char>)
    ensures
        monitor_name(one, Some(name)) == name,
        monitor_name(one, None) == monitor_name(two, None) <==> one == two,
        "display-"@.is_prefix_of(monitor_name(one, None)),
        crate::text::value_of(monitor_name(one, None).skip("display-"@.len() as int)) == one,
{
    let prefix = "display-"@;
    crate::text::law_decimals_differ(one as nat, two as nat);
    crate::text::law_decimal_reads_back(one as nat);
    assert((prefix + decimal(one as nat)).skip(prefix.len() as int) =~= decimal(one as nat));
    assert((prefix + decimal(two as nat)).skip(prefix.len() as int) =~= decimal(two as nat));
    assert((prefix + decimal(one as nat)).take(prefix.len() as int) =~= prefix);
}

/// The stand-in for a missing monitor is 1920 pixels wide and 1080 high: each number is a fraction
/// of twenty-four binary digits, the first of which is not written, times a power of two.
pub proof fn law_stand_in_has_a_usual_size()
    ensures
        (0x80_0000 + PLACEHOLDER_WIDTH % 0x80_0000) == 1920 * 0x2000,
        PLACEHOLDER_WIDTH / 0x80_0000 == 127 + 10,
        (0x80_0000 + PLACEHOLDER_HEIGHT % 0x80_0000) == 1080 * 0x2000,
        PLACEHOLDER_HEIGHT / 0x80_0000 == 127 + 10,
{
}

/// Identifiers are made in a namespace of their own.
pub proof fn law_identifiers_have_a_namespace_of_their_own()
    ensures
        DISPLAY_NAMESPACE == 0x9a1d4f2b_7c364e88_b0513d7a_6c942e11,
{
}

} // verus!
