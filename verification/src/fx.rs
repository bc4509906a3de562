//! Fast hashing, and the maps that use it.

use std::collections::HashMap;
use std::hash::Hash;
use std::hash::Hasher;

use rustc_hash::FxBuildHasher;
use rustc_hash::FxHasher;
use vstd::prelude::*;
use vstd::std_specs::hash::obeys_key_model;

verus! {

/// The hasher that the maps below are built with.
#[verifier::external_type_specification]
#[verifier::external_body]
pub struct ExFxBuildHasher(rustc_hash::FxBuildHasher);

/// The hasher's running state.
#[verifier::external_type_specification]
#[verifier::external_body]
pub struct ExFxHasher(rustc_hash::FxHasher);

/// The number a hasher has come to.
pub uninterp spec fn fx_state(hasher: FxHasher) -> usize;

/// The number a hasher at `state` comes to when `text` is hashed into it, on a machine with
/// addresses of `bits` bits.
pub uninterp spec fn fx_after_text(bits: u32, state: usize, text: Seq<char>) -> usize;

/// The number a hasher at `state` comes to when a slice of bytes is hashed into it, on a machine
/// with addresses of `bits` bits.
pub uninterp spec fn fx_after_bytes(bits: u32, state: usize, bytes: Seq<u8>) -> usize;

/// The number a hasher at `state` comes to when it is fed `word`: the sum times a constant, cut
/// to the width of an address.
#[verifier::opaque]
pub open spec fn fx_added(state: usize, word: u64) -> usize {
    let multiplier: int = if usize::BITS == 64 {
        0xf1357aea2e62a9c5
    } else {
        0x93d765dd
    };
    (((state + word) * multiplier) % (usize::MAX + 1)) as usize
}

/// The number a hasher at `state` comes to when it is fed `words` in order.
pub open spec fn fx_fold(state: usize, words: Seq<u64>) -> usize
    decreases words.len(),
{
    if words.len() == 0 {
        state
    } else {
        fx_added(fx_fold(state, words.drop_last()), words.last())
    }
}

/// What a hasher at `state` answers: its number with the upper bits moved to the bottom.
#[verifier::opaque]
pub open spec fn fx_answer(state: usize) -> u64 {
    if usize::BITS == 64 {
        ((state * 0x400_0000) % 0x1_0000_0000_0000_0000 + state as int / 0x40_0000_0000) as u64
    } else {
        ((state * 0x8000) % 0x1_0000_0000 + state as int / 0x2_0000) as u64
    }
}

/// The hash of a slice of bytes.
pub open spec fn hash_of_bytes(bytes: Seq<u8>) -> u64 {
    fx_answer(fx_after_bytes(usize::BITS, 0, bytes))
}

/// The hash of a sequence of numbers.
pub open spec fn hash_of_words(words: Seq<u64>) -> u64 {
    fx_answer(fx_fold(0, words))
}

/// The hash of a slice of bytes and a sequence of numbers after it.
pub open spec fn hash_of_bytes_and_words(bytes: Seq<u8>, words: Seq<u64>) -> u64 {
    fx_answer(fx_fold(fx_after_bytes(usize::BITS, 0, bytes), words))
}

/// The hash of a text and a sequence of numbers after it.
pub open spec fn hash_of_text_and_words(text: Seq<char>, words: Seq<u64>) -> u64 {
    fx_answer(fx_fold(fx_after_text(usize::BITS, 0, text), words))
}

/// Calls `rustc_hash::FxHasher::default`: a hasher at zero.
#[verifier::external_body]
fn fx_start() -> (hasher: FxHasher)
    ensures
        fx_state(hasher) == 0,
{
    FxHasher::default()
}

/// Calls `rustc_hash::FxHasher::write_u32`: the number is added and the sum multiplied by the
/// hasher's constant, which is another one where addresses have 32 bits.
#[verifier::external_body]
fn fx_feed(hasher: &mut FxHasher, word: u32)
    ensures
        fx_state(*final(hasher)) == fx_added(fx_state(*old(hasher)), word as u64),
{
    hasher.write_u32(word)
}

/// Calls `str::hash` with a `rustc_hash::FxHasher`: what the hasher comes to is a function of what
/// it had come to, of the text and of the width of an address, on the kind of machine that the
/// crate is built for.
#[verifier::external_body]
fn fx_feed_text(hasher: &mut FxHasher, text: &str)
    ensures
        fx_state(*final(hasher)) == fx_after_text(usize::BITS, fx_state(*old(hasher)), text@),
{
    text.hash(hasher)
}

/// Calls `<[u8]>::hash` with a `rustc_hash::FxHasher`: what the hasher comes to is a function of
/// what it had come to, of the bytes and of the width of an address, on the kind of machine that
/// the crate is built for.
#[verifier::external_body]
fn fx_feed_bytes(hasher: &mut FxHasher, bytes: &[u8])
    ensures
        fx_state(*final(hasher)) == fx_after_bytes(usize::BITS, fx_state(*old(hasher)), bytes@),
{
    bytes.hash(hasher)
}

/// Calls `rustc_hash::FxHasher::finish`: the hasher's number with its upper 26 bits, or its upper
/// 15 where addresses have 32 bits, moved to the bottom.
#[verifier::external_body]
fn fx_finish(hasher: &FxHasher) -> (hash: u64)
    ensures
        hash == fx_answer(fx_state(*hasher)),
{
    hasher.finish()
}

/// The hash of a slice of bytes.
pub(crate) fn hash_bytes(bytes: &[u8]) -> (hash: u64)
    ensures
        hash == hash_of_bytes(bytes@),
{
    let mut hasher = fx_start();
    fx_feed_bytes(&mut hasher, bytes);
    fx_finish(&hasher)
}

/// A hasher together with the numbers it was fed after it was started.
pub(crate) struct WordHasher {
    hasher: FxHasher,
    start: Ghost<usize>,
    fed: Ghost<Seq<u64>>,
}

impl WordHasher {
    /// What the hasher had come to before it was fed a number.
    pub(crate) closed spec fn start(self) -> usize {
        self.start@
    }

    /// The numbers the hasher was fed, in order.
    pub(crate) closed spec fn fed(self) -> Seq<u64> {
        self.fed@
    }

    /// Whether the hasher has come to what those numbers make of its start.
    pub(crate) closed spec fn wf(self) -> bool {
        fx_state(self.hasher) == fx_fold(self.start@, self.fed@)
    }

    /// A hasher that was fed nothing.
    pub(crate) fn new() -> (hasher: WordHasher)
        ensures
            hasher.wf(),
            hasher.start() == 0,
            hasher.fed() == Seq::<u64>::empty(),
    {
        WordHasher { hasher: fx_start(), start: Ghost(0), fed: Ghost(Seq::empty()) }
    }

    /// A hasher that starts from a text.
    pub(crate) fn after_text(text: &str) -> (hasher: WordHasher)
        ensures
            hasher.wf(),
            hasher.start() == fx_after_text(usize::BITS, 0, text@),
            hasher.fed() == Seq::<u64>::empty(),
    {
        let mut hasher = fx_start();
        fx_feed_text(&mut hasher, text);
        WordHasher { hasher, start: Ghost(fx_state(hasher)), fed: Ghost(Seq::empty()) }
    }

    /// A hasher that starts from a slice of bytes.
    pub(crate) fn after_bytes(bytes: &[u8]) -> (hasher: WordHasher)
        ensures
            hasher.wf(),
            hasher.start() == fx_after_bytes(usize::BITS, 0, bytes@),
            hasher.fed() == Seq::<u64>::empty(),
    {
        let mut hasher = fx_start();
        fx_feed_bytes(&mut hasher, bytes);
        WordHasher { hasher, start: Ghost(fx_state(hasher)), fed: Ghost(Seq::empty()) }
    }

    /// Feeds one number more.
    pub(crate) fn feed(&mut self, word: u32)
        requires
            old(self).wf(),
        ensures
            final(self).wf(),
            final(self).start() == old(self).start(),
            final(self).fed() == old(self).fed().push(word as u64),
    {
        fx_feed(&mut self.hasher, word);
        proof {
            assert(self.fed@.push(word as u64).drop_last() =~= self.fed@);
        }
        self.fed = Ghost(self.fed@.push(word as u64));
    }

    /// The answer.
    pub(crate) fn finish(&self) -> (hash: u64)
        requires
            self.wf(),
        ensures
            hash == fx_answer(fx_fold(self.start(), self.fed())),
    {
        fx_finish(&self.hasher)
    }
}

/// Calls `HashMap::default` for a map hashed by `rustc_hash::FxBuildHasher`: an empty map.
#[verifier::external_body]
pub(crate) fn fx_map<K: Eq + Hash, V>() -> (table: HashMap<K, V, FxBuildHasher>)
    ensures
        (table@ == Map::<K, V>::empty()),
{
    HashMap::default()
}

/// Calls `HashMap::clear` on a map hashed by `rustc_hash::FxBuildHasher`: the map is empty.
#[verifier::external_body]
pub(crate) fn fx_clear<K: Eq + Hash, V>(table: &mut HashMap<K, V, FxBuildHasher>)
    ensures
        (final(table)@ == Map::<K, V>::empty()),
{
    table.clear()
}

/// Calls `HashMap::get` on a map hashed by `rustc_hash::FxBuildHasher`: a copy of what stands
/// under `key`, where anything does. Keys are equal and hash alike exactly where they are the same.
#[verifier::external_body]
pub(crate) fn fx_get<K: Eq + Hash, V: Copy>(
    table: &HashMap<K, V, FxBuildHasher>,
    key: &K,
) -> (value: Option<V>)
    requires
        obeys_key_model::<K>(),
    ensures
        table@.dom().contains(*key) ==> value == Some(table@[*key]),
        !table@.dom().contains(*key) ==> value is None,
{
    table.get(key).copied()
}

/// Calls `HashMap::insert` on a map hashed by `rustc_hash::FxBuildHasher`: `value` stands under
/// `key`, in the place of what stood there. Keys are equal and hash alike exactly where they are
/// the same.
#[verifier::external_body]
pub(crate) fn fx_insert<K: Eq + Hash, V>(
    table: &mut HashMap<K, V, FxBuildHasher>,
    key: K,
    value: V,
)
    requires
        obeys_key_model::<K>(),
    ensures
        final(table)@ == old(table)@.insert(key, value),
{
    table.insert(key, value);
}

/// Calls `HashMap::remove` on a map hashed by `rustc_hash::FxBuildHasher`: nothing stands under
/// `key` any more. Keys are equal and hash alike exactly where they are the same.
#[verifier::external_body]
pub(crate) fn fx_remove<K: Eq + Hash, V>(table: &mut HashMap<K, V, FxBuildHasher>, key: &K)
    requires
        obeys_key_model::<K>(),
    ensures
        final(table)@ == old(table)@.remove(*key),
{
    table.remove(key);
}

} // verus!
