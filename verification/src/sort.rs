//! Binary search and sorted insertion over a caller-owned buffer.
//!
//! The buffer is a contiguous store with a fixed capacity of slots, of
//! which only a prefix — the logical length, tracked by the caller — holds
//! valid elements. All three entry points work purely on indices: the
//! caller injects a [`SortStrategy`] that knows how to compare a key
//! against an element of the buffer and how to copy one element over
//! another, so the routines themselves never touch element layout.

use core::cmp::Ordering;
use vstd::prelude::*;

verus! {

/// The capabilities a caller must supply: a comparison between a key and
/// a buffer element, and a move of one element within the buffer.
///
/// `key_lt` is the strict total order that the comparison realizes, and
/// `key_of` is the key an element carries (the whole element, or a
/// sub-field of it). The three proof obligations make every implementation
/// show that `key_lt` really is a strict total order, so callers of the
/// search routines get those laws for free.
pub trait SortStrategy<K, T>: Sized {
    /// The strict order on keys that `compare` decides.
    spec fn key_lt(&self, a: K, b: K) -> bool;

    /// The key carried by a buffer element.
    spec fn key_of(&self, e: T) -> K;

    /// `key_lt` never holds in both directions.
    proof fn key_lt_asymmetric(&self, a: K, b: K)
        requires
            self.key_lt(a, b),
        ensures
            !self.key_lt(b, a),
    ;

    /// `key_lt` chains across a middle key.
    proof fn key_lt_transitive(&self, a: K, b: K, c: K)
        requires
            self.key_lt(a, b),
            self.key_lt(b, c),
        ensures
            self.key_lt(a, c),
    ;

    /// Distinct keys are always ordered one way or the other.
    proof fn key_lt_total(&self, a: K, b: K)
        requires
            a != b,
        ensures
            self.key_lt(a, b) || self.key_lt(b, a),
    ;

    /// Three-way comparison of `key` against the element at `index`:
    /// `Less` when the key sorts before that element's key, `Greater`
    /// when after, `Equal` when neither.
    fn compare(&self, key: &K, data: &Vec<T>, index: usize) -> (r: Ordering)
        requires
            index < data.len(),
        ensures
            (r == Ordering::Less) == self.key_lt(*key, self.key_of(data@[index as int])),
            (r == Ordering::Greater) == (!self.key_lt(*key, self.key_of(data@[index as int]))
                && self.key_lt(self.key_of(data@[index as int]), *key)),
            (r == Ordering::Equal) == (!self.key_lt(*key, self.key_of(data@[index as int]))
                && !self.key_lt(self.key_of(data@[index as int]), *key)),
    ;

    /// Copies the element at `src_index` over the one at `dest_index`,
    /// leaving every other slot as it was.
    fn move_element(&self, data: &mut Vec<T>, src_index: usize, dest_index: usize)
        requires
            src_index < old(data).len(),
            dest_index < old(data).len(),
        ensures
            final(data)@ == old(data)@.update(dest_index as int, old(data)@[src_index as int]),
    ;
}

/// What `SortStrategy::compare` returns, as a function of the strategy's
/// order: `Less` when the key sorts before the element's key, `Greater`
/// when after, `Equal` otherwise.
pub open spec fn compare_spec<K, T, S: SortStrategy<K, T>>(s: &S, key: K, elem: T) -> Ordering {
    if s.key_lt(key, s.key_of(elem)) {
        Ordering::Less
    } else if s.key_lt(s.key_of(elem), key) {
        Ordering::Greater
    } else {
        Ordering::Equal
    }
}

/// The first `len` elements of `data` are sorted strictly ascending by
/// the strategy's order on their keys.
pub open spec fn sorted_by<K, T, S: SortStrategy<K, T>>(s: &S, data: Seq<T>, len: int) -> bool {
    forall|i: int, j: int|
        0 <= i < j < len ==> s.key_lt(s.key_of(#[trigger] data[i]), s.key_of(#[trigger] data[j]))
}

/// Some element of the first `len` compares `Equal` to `key`.
pub open spec fn key_present<K, T, S: SortStrategy<K, T>>(
    s: &S,
    key: K,
    data: Seq<T>,
    len: int,
) -> bool {
    exists|i: int| 0 <= i < len && compare_spec(s, key, #[trigger] data[i]) == Ordering::Equal
}

/// The slot where `key` belongs among the first `len` elements: the
/// number of elements that compare `Greater` (that the key sorts after).
/// On a sorted buffer this is the index of the matching element when one
/// exists, and otherwise the index where an insertion keeps the buffer
/// sorted; `len` means the key belongs past every current element.
pub open spec fn insert_position<K, T, S: SortStrategy<K, T>>(
    s: &S,
    key: K,
    data: Seq<T>,
    len: int,
) -> int
    decreases len,
{
    if len <= 0 {
        0
    } else if compare_spec(s, key, data[len - 1]) == Ordering::Greater {
        len
    } else {
        insert_position(s, key, data, len - 1)
    }
}

/// Do a binary search looking for a specific `key` among the first
/// `data_length` elements of `data`, returning `not_found_value` if no
/// element compares `Equal` to it.
///
/// The probe keeps a window of `s` candidates starting at `left` and
/// always probes `left + s/2`; when the key sorts after the probed
/// element, the window restarts just past it, with `s` decremented once
/// before being halved so that the window's end stays put.
///
/// `not_found_value` is a sentinel the caller reserves outside the valid
/// index range, which costs one otherwise-addressable index (on a 32-bit
/// target, the recommended value is the maximum of `usize`:
/// `0xFFFF_FFFF`).
pub fn bsearch<K, T, S: SortStrategy<K, T>>(
    key: K,
    data: &Vec<T>,
    data_length: usize,
    not_found_value: usize,
    strategy: &S,
) -> (r: usize)
    requires
        data_length <= data.len(),
        sorted_by(strategy, data@, data_length as int),
        not_found_value >= data_length,
    ensures
        key_present(strategy, key, data@, data_length as int) ==> r < data_length
            && compare_spec(strategy, key, data@[r as int]) == Ordering::Equal
            && r == insert_position(strategy, key, data@, data_length as int),
        !key_present(strategy, key, data@, data_length as int) ==> r == not_found_value,
        (r == not_found_value) <==> !key_present(strategy, key, data@, data_length as int),
{
    let mut left: usize = 0;
    let mut s: usize = data_length;
    while s > 0
        invariant
            data_length <= data.len(),
            sorted_by(strategy, data@, data_length as int),
            not_found_value >= data_length,
            left + s <= data_length,
            forall|j: int|
                0 <= j < left ==> compare_spec(strategy, key, #[trigger] data@[j])
                    == Ordering::Greater,
            forall|j: int|
                left + s <= j < data_length ==> compare_spec(strategy, key, #[trigger] data@[j])
                    == Ordering::Less,
        decreases s,
    {
        let idx: usize = left + (s / 2);
        let r: Ordering = strategy.compare(&key, data, idx);
        if matches!(r, Ordering::Equal) {
            proof {
                lemma_equal_match(strategy, key, data@, data_length as int, idx as int);
            }
            return idx;
        }
        if matches!(r, Ordering::Greater) {
            proof {
                lemma_greater_prefix(strategy, key, data@, data_length as int, idx as int);
            }
            left = idx + 1;
            s = s - 1;
        } else {
            proof {
                lemma_less_suffix(strategy, key, data@, data_length as int, idx as int);
            }
        }
        s = s / 2;
    }
    proof {
        lemma_split_facts(strategy, key, data@, data_length as int, left as int);
    }
    return not_found_value;
}

/// An `AproxBinarySearchResult` is how the `aprox_bsearch` ended:
/// * `ExactMatchIndex` - The value was found in the array
/// * `AproxMatch` - An index was found inside the current array
/// * `OutsideIndex` - The value should be inserted at the end of the array
pub enum AproxBinarySearchResult {
    ExactMatchIndex,
    AproxMatch,
    OutsideIndex,
}

/// Do an approximate binary search among the first `data_length` elements
/// of `data`, returning the index of the value or the index where the
/// value should be.
///
/// The probe loop is the same as in [`bsearch`]. When it exhausts the
/// window without a match, the last probed index is re-compared once
/// more: that final comparison settles on which side of the probed
/// element the key falls, and so pins the exact insertion index. The
/// returned index is always usable: the match to overwrite, or the slot
/// (at most `data_length`, the append position) that keeps the buffer
/// sorted once the tail is shifted aside and the key written.
pub fn aprox_bsearch<K, T, S: SortStrategy<K, T>>(
    key: K,
    data: &Vec<T>,
    data_length: usize,
    strategy: &S,
) -> (r: (AproxBinarySearchResult, usize))
    requires
        data_length <= data.len(),
        sorted_by(strategy, data@, data_length as int),
    ensures
        r.1 == insert_position(strategy, key, data@, data_length as int),
        r.1 <= data_length,
        (r.0 is ExactMatchIndex) <==> key_present(strategy, key, data@, data_length as int),
        (r.0 is OutsideIndex) <==> data_length == 0,
        (r.0 is AproxMatch) <==> (data_length > 0 && !key_present(
            strategy,
            key,
            data@,
            data_length as int,
        )),
        (r.0 is ExactMatchIndex) ==> r.1 < data_length && compare_spec(
            strategy,
            key,
            data@[r.1 as int],
        ) == Ordering::Equal,
{
    let mut left: usize = 0;
    let mut s: usize = data_length;
    let mut exact_value_found = false;
    let mut idx: usize = 0;
    while s > 0 && !exact_value_found
        invariant
            data_length <= data.len(),
            sorted_by(strategy, data@, data_length as int),
            left + s <= data_length,
            data_length > 0 ==> idx < data_length,
            data_length == 0 ==> idx == 0 && left == 0,
            forall|j: int|
                0 <= j < left ==> compare_spec(strategy, key, #[trigger] data@[j])
                    == Ordering::Greater,
            forall|j: int|
                left + s <= j < data_length ==> compare_spec(strategy, key, #[trigger] data@[j])
                    == Ordering::Less,
            exact_value_found ==> idx < data_length && compare_spec(
                strategy,
                key,
                data@[idx as int],
            ) == Ordering::Equal,
            !exact_value_found ==> idx == left + s || idx + 1 == left || (left == 0 && idx == 0
                && s == data_length),
        ensures
            s == 0 || exact_value_found,
            left + s <= data_length,
            data_length > 0 ==> idx < data_length,
            data_length == 0 ==> idx == 0,
            forall|j: int|
                0 <= j < left ==> compare_spec(strategy, key, #[trigger] data@[j])
                    == Ordering::Greater,
            forall|j: int|
                left + s <= j < data_length ==> compare_spec(strategy, key, #[trigger] data@[j])
                    == Ordering::Less,
            exact_value_found ==> idx < data_length && compare_spec(
                strategy,
                key,
                data@[idx as int],
            ) == Ordering::Equal,
            !exact_value_found ==> idx == left || idx + 1 == left || data_length == 0,
        decreases s,
    {
        idx = left + (s / 2);
        let r: Ordering = strategy.compare(&key, data, idx);
        if matches!(r, Ordering::Equal) {
            exact_value_found = true;
            break ;
        }
        if matches!(r, Ordering::Greater) {
            proof {
                lemma_greater_prefix(strategy, key, data@, data_length as int, idx as int);
            }
            left = idx + 1;
            s = s - 1;
        } else {
            proof {
                lemma_less_suffix(strategy, key, data@, data_length as int, idx as int);
            }
        }
        s = s / 2;
    }
    if exact_value_found {
        proof {
            lemma_equal_match(strategy, key, data@, data_length as int, idx as int);
        }
        return (AproxBinarySearchResult::ExactMatchIndex, idx);
    } else {
        proof {
            lemma_split_facts(strategy, key, data@, data_length as int, left as int);
        }
        if idx >= data_length {
            return (AproxBinarySearchResult::OutsideIndex, idx);
        } else {
            match strategy.compare(&key, data, idx) {
                Ordering::Less => return (AproxBinarySearchResult::AproxMatch, idx),
                // on a sorted buffer an exhausted window holds no match,
                // so this arm cannot be reached
                Ordering::Equal => return (AproxBinarySearchResult::ExactMatchIndex, idx),
                Ordering::Greater => return (AproxBinarySearchResult::AproxMatch, idx + 1),
            }
        }
    }
}

#[derive(Debug)]
pub enum SortedArrayAllocResult {
    Success,
    ArrayCapacityExceeded,
}

/// The buffer after the tail `[ip, len)` moved one slot right to open
/// slot `ip`: slots up to and including `ip` and past `len` keep their
/// old value, the rest hold their left neighbour's.
pub open spec fn shifted_right<T>(data: Seq<T>, ip: int, len: int) -> Seq<T> {
    Seq::new(data.len(), |j: int| if ip < j && j <= len { data[j - 1] } else { data[j] })
}

/// What [`sorted_array_insert`] returns and leaves in the buffer, as one
/// mathematical value `(outcome, index, added, buffer)`. A present key is
/// reported at its index with nothing moved; an absent key that fits gets
/// its slot opened by a right shift of the tail; an absent key that does
/// not fit leaves the buffer alone and reports the sentinel.
pub open spec fn insert_model<K, T, S: SortStrategy<K, T>>(
    s: &S,
    key: K,
    data: Seq<T>,
    len: int,
    capacity: int,
    sentinel: int,
) -> (SortedArrayAllocResult, int, int, Seq<T>) {
    if key_present(s, key, data, len) {
        (SortedArrayAllocResult::Success, insert_position(s, key, data, len), 0, data)
    } else if len + 1 <= capacity {
        (
            SortedArrayAllocResult::Success,
            insert_position(s, key, data, len),
            1,
            shifted_right(data, insert_position(s, key, data, len), len),
        )
    } else {
        (SortedArrayAllocResult::ArrayCapacityExceeded, sentinel, 0, data)
    }
}

/// For a pre-allocated buffer whose slots number `data_capacity` but
/// whose first `data_original_length` slots hold the valid elements,
/// find where `key` belongs and, if it is absent and there is room,
/// shift the tail one slot right to open its place.
///
/// Returns the outcome, the index, and how many elements were added
/// (`0` or `1`). This routine never writes the key itself and never
/// touches the caller's length counter: after a `Success` outcome the caller
/// must store the key at the returned index and grow its own length by
/// the returned count. On an existing match nothing moves — the caller
/// may overwrite the value in place, so duplicate keys replace rather
/// than duplicate. The shift walks from the tail backward, each move
/// copying an element one slot right, so no element is overwritten
/// before it is read.
///
/// `not_allocated_value` is the sentinel index reported when the
/// capacity is exhausted; the caller reserves it outside the valid index
/// range, at the cost of one otherwise-addressable index.
pub fn sorted_array_insert<K, T, S: SortStrategy<K, T>>(
    key: K,
    data: &mut Vec<T>,
    data_original_length: usize,
    data_capacity: usize,
    not_allocated_value: usize,
    strategy: &S,
) -> (r: (SortedArrayAllocResult, usize, usize))
    requires
        data_original_length <= data_capacity,
        data_capacity <= old(data).len(),
        sorted_by(strategy, old(data)@, data_original_length as int),
        not_allocated_value >= data_capacity,
    ensures
        (r.0, r.1 as int, r.2 as int, final(data)@) == insert_model(
            strategy,
            key,
            old(data)@,
            data_original_length as int,
            data_capacity as int,
            not_allocated_value as int,
        ),
        final(data)@.len() == old(data)@.len(),
{
    let (aprox_result, possible_index) = aprox_bsearch(key, data, data_original_length, strategy);
    match aprox_result {
        AproxBinarySearchResult::ExactMatchIndex => {
            return (SortedArrayAllocResult::Success, possible_index, 0);
        },
        AproxBinarySearchResult::AproxMatch => {
            if data_original_length < data_capacity {
                let mut src: usize = data_original_length;
                while src > possible_index
                    invariant
                        possible_index <= src <= data_original_length,
                        data_original_length < data_capacity <= data.len(),
                        data@.len() == old(data)@.len(),
                        forall|j: int| 0 <= j <= src ==> data@[j] == old(data)@[j],
                        forall|j: int|
                            src < j <= data_original_length ==> data@[j] == old(data)@[j - 1],
                        forall|j: int|
                            data_original_length < j < data@.len() ==> data@[j] == old(data)@[j],
                    decreases src,
                {
                    src = src - 1;
                    strategy.move_element(data, src, src + 1);
                }
                proof {
                    assert(data@ =~= shifted_right(
                        old(data)@,
                        possible_index as int,
                        data_original_length as int,
                    ));
                }
                return (SortedArrayAllocResult::Success, possible_index, 1);
            } else {
                return (
                    SortedArrayAllocResult::ArrayCapacityExceeded,
                    not_allocated_value,
                    0,
                );
            }
        },
        AproxBinarySearchResult::OutsideIndex => {
            if data_original_length < data_capacity {
                proof {
                    assert(data@ =~= shifted_right(
                        old(data)@,
                        possible_index as int,
                        data_original_length as int,
                    ));
                }
                return (SortedArrayAllocResult::Success, possible_index, 1);
            } else {
                return (
                    SortedArrayAllocResult::ArrayCapacityExceeded,
                    not_allocated_value,
                    0,
                );
            }
        },
    }
}

/// The simplest strategy: a buffer of bytes, each its own key, ordered
/// numerically.
pub struct ByteStrategy;

impl SortStrategy<u8, u8> for ByteStrategy {
    open spec fn key_lt(&self, a: u8, b: u8) -> bool {
        a < b
    }

    open spec fn key_of(&self, e: u8) -> u8 {
        e
    }

    proof fn key_lt_asymmetric(&self, a: u8, b: u8) {
    }

    proof fn key_lt_transitive(&self, a: u8, b: u8, c: u8) {
    }

    proof fn key_lt_total(&self, a: u8, b: u8) {
    }

    fn compare(&self, key: &u8, data: &Vec<u8>, index: usize) -> (r: Ordering) {
        let current_value: u8 = data[index];
        if *key == current_value {
            Ordering::Equal
        } else if *key > current_value {
            Ordering::Greater
        } else {
            Ordering::Less
        }
    }

    fn move_element(&self, data: &mut Vec<u8>, src_index: usize, dest_index: usize) {
        let value: u8 = data[src_index];
        data[dest_index] = value;
    }
}

/// Everything at or below a `Greater` probe also compares `Greater`: on
/// a sorted buffer, a key that sorts after an element sorts after every
/// earlier element too.
proof fn lemma_greater_prefix<K, T, S: SortStrategy<K, T>>(
    s: &S,
    key: K,
    data: Seq<T>,
    len: int,
    i: int,
)
    requires
        sorted_by(s, data, len),
        0 <= i < len <= data.len(),
        compare_spec(s, key, data[i]) == Ordering::Greater,
    ensures
        forall|j: int|
            0 <= j <= i ==> compare_spec(s, key, #[trigger] data[j]) == Ordering::Greater,
{
    assert forall|j: int|
        0 <= j <= i implies compare_spec(s, key, #[trigger] data[j]) == Ordering::Greater by {
        if j < i {
            s.key_lt_transitive(s.key_of(data[j]), s.key_of(data[i]), key);
            s.key_lt_asymmetric(s.key_of(data[j]), key);
        }
    }
}

/// Everything at or above a `Less` probe also compares `Less`.
proof fn lemma_less_suffix<K, T, S: SortStrategy<K, T>>(
    s: &S,
    key: K,
    data: Seq<T>,
    len: int,
    i: int,
)
    requires
        sorted_by(s, data, len),
        0 <= i < len <= data.len(),
        compare_spec(s, key, data[i]) == Ordering::Less,
    ensures
        forall|j: int| i <= j < len ==> compare_spec(s, key, #[trigger] data[j]) == Ordering::Less,
{
    assert forall|j: int|
        i <= j < len implies compare_spec(s, key, #[trigger] data[j]) == Ordering::Less by {
        if i < j {
            s.key_lt_transitive(key, s.key_of(data[i]), s.key_of(data[j]));
        }
    }
}

/// When everything below `b` compares `Greater` and nothing from `b` on
/// does, `b` is the insert position.
proof fn lemma_boundary_position<K, T, S: SortStrategy<K, T>>(
    s: &S,
    key: K,
    data: Seq<T>,
    len: int,
    b: int,
)
    requires
        0 <= b <= len <= data.len(),
        forall|j: int|
            0 <= j < b ==> compare_spec(s, key, #[trigger] data[j]) == Ordering::Greater,
        forall|j: int|
            b <= j < len ==> compare_spec(s, key, #[trigger] data[j]) != Ordering::Greater,
    ensures
        insert_position(s, key, data, len) == b,
    decreases len,
{
    if len > 0 && b < len {
        lemma_boundary_position(s, key, data, len - 1, b);
    }
}

/// A window that shrank to nothing splits the buffer at `b`: `Greater`
/// strictly below it, `Less` from it on. Then `b` is the insert position
/// and no element matches the key.
proof fn lemma_split_facts<K, T, S: SortStrategy<K, T>>(
    s: &S,
    key: K,
    data: Seq<T>,
    len: int,
    b: int,
)
    requires
        0 <= b <= len <= data.len(),
        forall|j: int|
            0 <= j < b ==> compare_spec(s, key, #[trigger] data[j]) == Ordering::Greater,
        forall|j: int| b <= j < len ==> compare_spec(s, key, #[trigger] data[j]) == Ordering::Less,
    ensures
        insert_position(s, key, data, len) == b,
        !key_present(s, key, data, len),
{
    lemma_boundary_position(s, key, data, len, b);
}

/// An element that compares `Equal` carries the key itself, everything
/// before it compares `Greater`, everything after it `Less`, and its
/// index is the insert position — in particular, the match is unique.
proof fn lemma_equal_match<K, T, S: SortStrategy<K, T>>(
    s: &S,
    key: K,
    data: Seq<T>,
    len: int,
    e: int,
)
    requires
        sorted_by(s, data, len),
        0 <= e < len <= data.len(),
        compare_spec(s, key, data[e]) == Ordering::Equal,
    ensures
        s.key_of(data[e]) == key,
        forall|j: int|
            0 <= j < e ==> compare_spec(s, key, #[trigger] data[j]) == Ordering::Greater,
        forall|j: int| e < j < len ==> compare_spec(s, key, #[trigger] data[j]) == Ordering::Less,
        insert_position(s, key, data, len) == e,
        key_present(s, key, data, len),
{
    if key != s.key_of(data[e]) {
        s.key_lt_total(key, s.key_of(data[e]));
    }
    assert forall|j: int|
        0 <= j < e implies compare_spec(s, key, #[trigger] data[j]) == Ordering::Greater by {
        s.key_lt_asymmetric(s.key_of(data[j]), key);
    }
    lemma_boundary_position(s, key, data, len, e);
}

/// On a sorted buffer without the key, the insert position splits the
/// elements: the key sorts after everything before it and before
/// everything from it on.
proof fn lemma_position_profile<K, T, S: SortStrategy<K, T>>(s: &S, key: K, data: Seq<T>, len: int)
    requires
        sorted_by(s, data, len),
        0 <= len <= data.len(),
        !key_present(s, key, data, len),
    ensures
        0 <= insert_position(s, key, data, len) <= len,
        forall|j: int|
            0 <= j < insert_position(s, key, data, len) ==> compare_spec(
                s,
                key,
                #[trigger] data[j],
            ) == Ordering::Greater,
        forall|j: int|
            insert_position(s, key, data, len) <= j < len ==> compare_spec(
                s,
                key,
                #[trigger] data[j],
            ) == Ordering::Less,
    decreases len,
{
    if len > 0 {
        assert(compare_spec(s, key, data[len - 1]) != Ordering::Equal);
        if compare_spec(s, key, data[len - 1]) == Ordering::Greater {
            lemma_greater_prefix(s, key, data, len, len - 1);
        } else {
            lemma_position_profile(s, key, data, len - 1);
        }
    }
}

/// The returned insertion index really is usable: shift the tail right
/// from the insert position of a key the buffer does not hold, write an
/// element carrying that key into the slot so opened, and the buffer is
/// sorted ascending again, now one element longer.
pub proof fn lemma_insert_keeps_sorted<K, T, S: SortStrategy<K, T>>(
    s: &S,
    key: K,
    data: Seq<T>,
    len: int,
    elem: T,
)
    requires
        sorted_by(s, data, len),
        0 <= len < data.len(),
        !key_present(s, key, data, len),
        s.key_of(elem) == key,
    ensures
        sorted_by(
            s,
            shifted_right(data, insert_position(s, key, data, len), len).update(
                insert_position(s, key, data, len),
                elem,
            ),
            len + 1,
        ),
{
    let ip = insert_position(s, key, data, len);
    lemma_position_profile(s, key, data, len);
    let out = shifted_right(data, ip, len).update(ip, elem);
    assert forall|i: int, j: int|
        0 <= i < j < len + 1 implies s.key_lt(
        s.key_of(#[trigger] out[i]),
        s.key_of(#[trigger] out[j]),
    ) by {
        if j < ip {
            assert(out[i] == data[i] && out[j] == data[j]);
        } else if j == ip {
            assert(out[i] == data[i] && out[j] == elem);
            assert(compare_spec(s, key, data[i]) == Ordering::Greater);
        } else if i < ip {
            assert(out[i] == data[i] && out[j] == data[j - 1]);
        } else if i == ip {
            assert(out[i] == elem && out[j] == data[j - 1]);
            assert(compare_spec(s, key, data[j - 1]) == Ordering::Less);
        } else {
            assert(out[i] == data[i - 1] && out[j] == data[j - 1]);
        }
    }
}

/// Overwriting an exact match with an element carrying the searched key
/// leaves the buffer sorted: when the search reports a match, the caller
/// may store the new value in place, and no order is disturbed.
pub proof fn lemma_replace_match_keeps_sorted<K, T, S: SortStrategy<K, T>>(
    s: &S,
    key: K,
    data: Seq<T>,
    len: int,
    e: int,
    elem: T,
)
    requires
        sorted_by(s, data, len),
        0 <= e < len <= data.len(),
        compare_spec(s, key, data[e]) == Ordering::Equal,
        s.key_of(elem) == key,
    ensures
        sorted_by(s, data.update(e, elem), len),
{
    lemma_equal_match(s, key, data, len, e);
    let out = data.update(e, elem);
    assert forall|i: int, j: int|
        0 <= i < j < len implies s.key_lt(
        s.key_of(#[trigger] out[i]),
        s.key_of(#[trigger] out[j]),
    ) by {
        if i == e {
            assert(compare_spec(s, key, data[j]) == Ordering::Less);
        } else if j == e {
            assert(compare_spec(s, key, data[i]) == Ordering::Greater);
        }
    }
}

/// Inserting an already-present key is idempotent: it reports the match
/// with nothing added and the buffer untouched, and doing it again
/// reports the very same outcome on the very same buffer.
pub proof fn lemma_insert_present_idempotent<K, T, S: SortStrategy<K, T>>(
    s: &S,
    key: K,
    data: Seq<T>,
    len: int,
    capacity: int,
    sentinel: int,
)
    requires
        key_present(s, key, data, len),
    ensures
        ({
            let first = insert_model(s, key, data, len, capacity, sentinel);
            let second = insert_model(s, key, first.3, len, capacity, sentinel);
            &&& first.0 is Success
            &&& first.2 == 0
            &&& first.3 == data
            &&& second == first
        }),
{
}

/// Inserting an absent key into a buffer whose length has reached its
/// capacity always fails the same way: capacity exceeded, the sentinel
/// as index, nothing added, and the buffer untouched.
pub proof fn lemma_insert_at_capacity<K, T, S: SortStrategy<K, T>>(
    s: &S,
    key: K,
    data: Seq<T>,
    len: int,
    sentinel: int,
)
    requires
        !key_present(s, key, data, len),
    ensures
        insert_model(s, key, data, len, len, sentinel) == (
            SortedArrayAllocResult::ArrayCapacityExceeded,
            sentinel,
            0int,
            data,
        ),
{
}

} // verus!
