//! The reservation bits live in a `bitmap::Bitmap` with one-bit entries.
//! Nothing in that crate is verified here: this module states what the
//! rest of the library relies on.

use bitmap::{Bitmap, OneBit};
use vstd::prelude::*;

verus! {

/// A fixed-capacity store of one bit per index, kept in a `bitmap::Bitmap`
/// of one-bit entries over a `Vec<usize>`.
#[verifier::external_body]
pub struct BitStore {
    inner: Bitmap<Vec<usize>, OneBit>,
}

/// The entries of a store, in index order; `true` stands for the bit 1.
pub uninterp spec fn store_bits(store: BitStore) -> Seq<bool>;

/// Bit `position` of `word`, counted from the least significant.
pub open spec fn word_bit(word: usize, position: usize) -> bool {
    ((word as u64) >> (position as u64)) & 1 == 1
}

/// The number of bits in a word of the store.
pub open spec fn word_bits() -> int {
    usize::BITS as int
}

/// `Bitmap::from_storage` with the entry width of `OneBit`.
///
/// The bitmap reads its words without a bounds check, so `words` must
/// hold every entry. The bitmap is made when `entries + entries % B`
/// fits a `usize` and that sum, divided by `B`, does not exceed the number
/// of words, where `B` is the number of bits in a `usize`. Entry `i` is
/// then bit `i % B` of word `i / B`.
#[verifier::external_body]
pub(crate) fn store_from_words(entries: usize, words: Vec<usize>) -> (made: Option<BitStore>)
    requires
        entries <= words.len() * word_bits(),
    ensures
        made is Some <==> {
            let padded = entries + (entries as int) % word_bits();
            padded <= usize::MAX && padded / word_bits() <= words.len()
        },
        made matches Some(store) ==> {
            &&& store_bits(store).len() == entries
            &&& forall|i: int|
                0 <= i < entries ==> #[trigger] store_bits(store)[i] == word_bit(
                    words[i / word_bits()],
                    (i % word_bits()) as usize,
                )
        },
{
    match Bitmap::from_storage(entries, (), words) {
        Some(inner) => Some(BitStore { inner }),
        None => None,
    }
}

/// `Bitmap::len`: the number of entries.
#[verifier::external_body]
pub(crate) fn store_len(store: &BitStore) -> (entries: usize)
    ensures
        entries == store_bits(*store).len(),
{
    store.inner.len()
}

/// `Bitmap::get`: the entry at `index` as 0 or 1, or nothing where `index`
/// is not below the number of entries.
#[verifier::external_body]
pub(crate) fn store_get(store: &BitStore, index: usize) -> (entry: Option<u64>)
    ensures
        entry == (if index < store_bits(*store).len() {
            Some(
                if store_bits(*store)[index as int] {
                    1u64
                } else {
                    0u64
                },
            )
        } else {
            None
        }),
{
    store.inner.get(index)
}

/// `Bitmap::set`: writes `value` at `index` and returns `true`, or leaves
/// the store as it is and returns `false` where `index` is not below the
/// number of entries or `value` is neither 0 nor 1.
#[verifier::external_body]
pub(crate) fn store_set(store: &mut BitStore, index: usize, value: u64) -> (written: bool)
    ensures
        written == (index < store_bits(*old(store)).len() && value <= 1),
        store_bits(*final(store)) == (if written {
            store_bits(*old(store)).update(index as int, value == 1)
        } else {
            store_bits(*old(store))
        }),
{
    store.inner.set(index, value)
}

} // verus!
