//! A stable sort.
//!
//! Sorting yields the order in which the positions of a list are to be read:
//! by rank, and among equal ranks by position.

use crate::text::{
    chars_of, is_text_less, lemma_text_less_irreflexive, lemma_text_less_total,
    lemma_text_less_transitive, text_less,
};
use vstd::prelude::*;

verus! {

/// A key by which a list is sorted: a strict weak order.
pub trait Ranked: View + Sized {
    /// Whether the first key comes strictly before the second.
    spec fn ahead() -> spec_fn(Self::V, Self::V) -> bool;

    /// A key does not come before itself.
    proof fn lemma_irreflexive(a: Self::V)
        ensures
            !Self::ahead()(a, a),
    ;

    /// The order is transitive.
    proof fn lemma_transitive(a: Self::V, b: Self::V, c: Self::V)
        requires
            Self::ahead()(a, b),
            Self::ahead()(b, c),
        ensures
            Self::ahead()(a, c),
    ;

    /// Where one key comes before another, any third comes after the one or
    /// before the other.
    proof fn lemma_separates(a: Self::V, b: Self::V, c: Self::V)
        requires
            Self::ahead()(a, c),
        ensures
            Self::ahead()(a, b) || Self::ahead()(b, c),
    ;

    /// Whether this key comes strictly before the other.
    fn is_ahead(&self, other: &Self) -> (r: bool)
        ensures
            r == Self::ahead()(self@, other@),
    ;
}

/// A record that can be copied.
pub trait Replica: View + Sized {
    /// A copy of this record.
    fn replica(&self) -> (r: Self)
        ensures
            r@ == self@,
    ;
}

/// Whether position `i` is to be read before position `j`.
pub open spec fn precedes<V>(
    keys: Seq<V>,
    ahead: spec_fn(V, V) -> bool,
    i: int,
    j: int,
) -> bool {
    ahead(keys[i], keys[j]) || (!ahead(keys[j], keys[i]) && i < j)
}

/// Whether `order` lists every position of `keys`, lowest key first, equal
/// keys in the order of their positions.
pub open spec fn stable_order<V>(
    keys: Seq<V>,
    ahead: spec_fn(V, V) -> bool,
    order: Seq<usize>,
) -> bool {
    &&& order.len() == keys.len()
    &&& forall|i: int| 0 <= i < order.len() ==> #[trigger] order[i] < keys.len()
    &&& increasing(keys, ahead, order)
}

/// Whether the listed positions are in strictly increasing order.
pub open spec fn increasing<V>(
    keys: Seq<V>,
    ahead: spec_fn(V, V) -> bool,
    order: Seq<usize>,
) -> bool {
    forall|i: int, j: int|
        0 <= i < j < order.len() ==> precedes(
            keys,
            ahead,
            #[trigger] order[i] as int,
            #[trigger] order[j] as int,
        )
}

/// Whether `output` is `input` sorted, equal elements in their old order.
pub open spec fn stably_sorted<V>(
    input: Seq<V>,
    ahead: spec_fn(V, V) -> bool,
    output: Seq<V>,
) -> bool {
    exists|order: Seq<usize>| #[trigger]
        stable_order(input, ahead, order) && output == arranged(input, order)
}

/// The views of a list of keys.
pub open spec fn key_views<K: Ranked>(keys: Seq<K>) -> Seq<K::V> {
    keys.map_values(|k: K| k@)
}

proof fn lemma_precedes_transitive<K: Ranked>(keys: Seq<K::V>, a: int, b: int, c: int)
    requires
        precedes(keys, K::ahead(), a, b),
        precedes(keys, K::ahead(), b, c),
    ensures
        precedes(keys, K::ahead(), a, c),
{
    let (x, y, z) = (keys[a], keys[b], keys[c]);
    let ahead = K::ahead();
    if ahead(x, y) {
        if ahead(y, z) {
            K::lemma_transitive(x, y, z);
        } else {
            K::lemma_separates(x, z, y);
        }
    } else if ahead(y, z) {
        K::lemma_separates(y, x, z);
    } else if ahead(z, x) {
        K::lemma_separates(z, y, x);
    }
}

proof fn lemma_precedes_total<K: Ranked>(keys: Seq<K::V>, a: int, b: int)
    requires
        a < b,
    ensures
        precedes(keys, K::ahead(), a, b) == !K::ahead()(keys[b], keys[a]),
        precedes(keys, K::ahead(), b, a) == K::ahead()(keys[b], keys[a]),
{
    if K::ahead()(keys[a], keys[b]) && K::ahead()(keys[b], keys[a]) {
        K::lemma_transitive(keys[a], keys[b], keys[a]);
        K::lemma_irreflexive(keys[a]);
    }
}

/// Merges two increasing lists of positions, all of the first list below all
/// of the second.
fn merge<K: Ranked>(keys: &Vec<K>, left: &Vec<usize>, right: &Vec<usize>, mid: usize) -> (r: Vec<
    usize,
>)
    requires
        forall|i: int| 0 <= i < left.len() ==> #[trigger] left[i] < mid,
        forall|i: int| 0 <= i < right.len() ==> mid <= #[trigger] right[i] < keys.len(),
        mid <= keys.len(),
        increasing(key_views(keys@), K::ahead(), left@),
        increasing(key_views(keys@), K::ahead(), right@),
        left.len() + right.len() <= keys.len(),
    ensures
        r.len() == left.len() + right.len(),
        forall|i: int|
            0 <= i < r.len() ==> left@.contains(#[trigger] r[i]) || right@.contains(r[i]),
        increasing(key_views(keys@), K::ahead(), r@),
{
    let ghost views = key_views(keys@);
    let ghost ahead = K::ahead();
    let mut out: Vec<usize> = Vec::new();
    let mut i: usize = 0;
    let mut j: usize = 0;
    while i < left.len() || j < right.len()
        invariant
            i <= left.len(),
            j <= right.len(),
            out.len() == i + j,
            views == key_views(keys@),
            ahead == K::ahead(),
            mid <= keys.len(),
            left.len() + right.len() <= keys.len(),
            forall|k: int| 0 <= k < left.len() ==> #[trigger] left[k] < mid,
            forall|k: int| 0 <= k < right.len() ==> mid <= #[trigger] right[k] < keys.len(),
            increasing(views, ahead, left@),
            increasing(views, ahead, right@),
            increasing(views, ahead, out@),
            forall|k: int|
                0 <= k < out.len() ==> left@.contains(#[trigger] out[k]) || right@.contains(out[k]),
            forall|k: int, l: int|
                0 <= k < out.len() && i <= l < left.len() ==> precedes(
                    views,
                    ahead,
                    #[trigger] out[k] as int,
                    #[trigger] left[l] as int,
                ),
            forall|k: int, l: int|
                0 <= k < out.len() && j <= l < right.len() ==> precedes(
                    views,
                    ahead,
                    #[trigger] out[k] as int,
                    #[trigger] right[l] as int,
                ),
        decreases left.len() - i + right.len() - j,
    {
        let ghost old_out = out@;
        let take_right: bool = if i >= left.len() {
            true
        } else if j >= right.len() {
            false
        } else {
            let r: bool = keys[right[j]].is_ahead(&keys[left[i]]);
            proof {
                lemma_precedes_total::<K>(views, left[i as int] as int, right[j as int] as int);
            }
            r
        };
        if take_right {
            let x: usize = right[j];
            assert forall|l: int| i <= l < left.len() implies precedes(
                views,
                ahead,
                x as int,
                #[trigger] left[l] as int,
            ) by {
                if l > i {
                    lemma_precedes_transitive::<K>(
                        views,
                        x as int,
                        left[i as int] as int,
                        left[l] as int,
                    );
                }
            }
            assert(right@.contains(x));
            out.push(x);
            j = j + 1;
        } else {
            let x: usize = left[i];
            assert forall|l: int| j <= l < right.len() implies precedes(
                views,
                ahead,
                x as int,
                #[trigger] right[l] as int,
            ) by {
                if l > j {
                    lemma_precedes_transitive::<K>(
                        views,
                        x as int,
                        right[j as int] as int,
                        right[l] as int,
                    );
                }
            }
            assert(left@.contains(x));
            out.push(x);
            i = i + 1;
        }
        assert forall|k: int| 0 <= k < out.len() implies left@.contains(#[trigger] out[k])
            || right@.contains(out[k]) by {
            if k < old_out.len() {
                assert(out[k] == old_out[k]);
            }
        }
    }
    out
}

/// The order of the positions `lo..hi`.
fn sort_range<K: Ranked>(keys: &Vec<K>, lo: usize, hi: usize) -> (r: Vec<usize>)
    requires
        lo <= hi <= keys.len(),
    ensures
        r.len() == hi - lo,
        forall|i: int| 0 <= i < r.len() ==> lo <= #[trigger] r[i] < hi,
        increasing(key_views(keys@), K::ahead(), r@),
    decreases hi - lo,
{
    let mut out: Vec<usize> = Vec::new();
    if lo == hi {
        return out;
    }
    if hi - lo == 1 {
        out.push(lo);
        return out;
    }
    let mid: usize = lo + (hi - lo) / 2;
    let left = sort_range(keys, lo, mid);
    let right = sort_range(keys, mid, hi);
    let merged = merge(keys, &left, &right, mid);
    merged
}

/// The stable order of a list of keys.
pub fn sort_keys<K: Ranked>(keys: &Vec<K>) -> (r: Vec<usize>)
    ensures
        stable_order(key_views(keys@), K::ahead(), r@),
{
    sort_range(keys, 0, keys.len())
}

/// The records in the order of the listed positions.
pub open spec fn arranged<V>(items: Seq<V>, order: Seq<usize>) -> Seq<V> {
    order.map_values(|p: usize| items[p as int])
}

/// The views of a list of records.
pub open spec fn record_views<T: View>(s: Seq<T>) -> Seq<T::V> {
    s.map_values(|t: T| t@)
}

/// Copies records in the order of the listed positions.
pub fn arrange<T: Replica>(items: &Vec<T>, order: &Vec<usize>) -> (r: Vec<T>)
    requires
        forall|i: int| 0 <= i < order.len() ==> #[trigger] order[i] < items.len(),
    ensures
        record_views(r@) == arranged(record_views(items@), order@),
{
    let ghost views = record_views(items@);
    let mut r: Vec<T> = Vec::new();
    for i in 0..order.len()
        invariant
            views == record_views(items@),
            forall|k: int| 0 <= k < order.len() ==> #[trigger] order[k] < items.len(),
            record_views(r@) == arranged(views, order@).take(i as int),
    {
        let t = items[order[i]].replica();
        let ghost before = r@;
        r.push(t);
        assert(record_views(r@) =~= record_views(before).push(t@));
        assert(record_views(r@) =~= arranged(views, order@).take(i + 1));
    }
    assert(arranged(views, order@).take(order.len() as int) =~= arranged(views, order@));
    r
}

/// A stable order lists every position exactly once.
pub proof fn lemma_stable_order_lists_all<V>(
    keys: Seq<V>,
    ahead: spec_fn(V, V) -> bool,
    order: Seq<usize>,
)
    requires
        stable_order(keys, ahead, order),
        forall|v: V| !#[trigger] ahead(v, v),
    ensures
        order.no_duplicates(),
        forall|p: usize| p < keys.len() ==> #[trigger] order.contains(p),
{
    assert forall|i: int, j: int| 0 <= i < order.len() && 0 <= j < order.len() && i != j implies
        order[i] != order[j] by {
        if i < j {
            assert(precedes(keys, ahead, order[i] as int, order[j] as int));
        } else {
            assert(precedes(keys, ahead, order[j] as int, order[i] as int));
        }
    }
    let n = keys.len() as int;
    let listed = order.map_values(|p: usize| p as int);
    assert(listed.no_duplicates());
    listed.unique_seq_to_set();
    let all = vstd::set_lib::set_int_range(0, n);
    vstd::set_lib::lemma_int_range(0, n);
    assert(listed.to_set().subset_of(all)) by {
        assert forall|p: int| listed.to_set().contains(p) implies all.contains(p) by {
            let i = choose|i: int| 0 <= i < listed.len() && listed[i] == p;
            assert(order[i] < keys.len());
        }
    }
    vstd::set_lib::lemma_subset_equality(listed.to_set(), all);
    assert forall|p: usize| p < keys.len() implies #[trigger] order.contains(p) by {
        assert(all.contains(p as int));
        assert(listed.contains(p as int));
        let i = choose|i: int| 0 <= i < listed.len() && listed[i] == p as int;
        assert(order[i] == p);
    }
}

// ---------------------------------------------------------------------------
// Keys
// ---------------------------------------------------------------------------

/// A key that sorts by the order of strings.
pub struct TextKey {
    pub chars: Vec<char>,
}

impl View for TextKey {
    type V = Seq<char>;

    open spec fn view(&self) -> Seq<char> {
        self.chars@
    }
}

impl TextKey {
    /// The key of a string.
    pub fn new(text: &str) -> (r: TextKey)
        ensures
            r@ == text@,
    {
        TextKey { chars: chars_of(text) }
    }
}

/// The order of strings.
pub open spec fn by_text() -> spec_fn(Seq<char>, Seq<char>) -> bool {
    |a: Seq<char>, b: Seq<char>| text_less(a, b)
}

impl Ranked for TextKey {
    open spec fn ahead() -> spec_fn(Seq<char>, Seq<char>) -> bool {
        by_text()
    }

    proof fn lemma_irreflexive(a: Seq<char>) {
        lemma_text_less_irreflexive(a);
    }

    proof fn lemma_transitive(a: Seq<char>, b: Seq<char>, c: Seq<char>) {
        lemma_text_less_transitive(a, b, c);
    }

    proof fn lemma_separates(a: Seq<char>, b: Seq<char>, c: Seq<char>) {
        lemma_text_less_total(a, b);
        if text_less(b, a) {
            lemma_text_less_transitive(b, a, c);
        }
    }

    fn is_ahead(&self, other: &Self) -> (r: bool) {
        is_text_less(&self.chars, &other.chars)
    }
}

/// A key that sorts by time, latest first.
pub struct LatestFirst {
    pub at_ms: u128,
}

impl View for LatestFirst {
    type V = u128;

    open spec fn view(&self) -> u128 {
        self.at_ms
    }
}

/// Later times first.
pub open spec fn by_latest() -> spec_fn(u128, u128) -> bool {
    |a: u128, b: u128| a > b
}

impl Ranked for LatestFirst {
    open spec fn ahead() -> spec_fn(u128, u128) -> bool {
        by_latest()
    }

    proof fn lemma_irreflexive(a: u128) {
    }

    proof fn lemma_transitive(a: u128, b: u128, c: u128) {
    }

    proof fn lemma_separates(a: u128, b: u128, c: u128) {
    }

    fn is_ahead(&self, other: &Self) -> (r: bool) {
        self.at_ms > other.at_ms
    }
}

/// What a stable sort is for: every element of the input is in the output
/// exactly once, nothing else is, none comes before one that is ahead of it, and
/// of two that are equal the one that came first stays first. The result says
/// from which position each element comes.
pub proof fn lemma_stably_sorted<V>(
    input: Seq<V>,
    ahead: spec_fn(V, V) -> bool,
    output: Seq<V>,
) -> (order: Seq<usize>)
    requires
        stably_sorted(input, ahead, output),
        forall|a: V, b: V| #[trigger] ahead(a, b) ==> !ahead(b, a),
    ensures
        output.len() == input.len(),
        order.len() == input.len(),
        order.no_duplicates(),
        forall|p: usize| p < input.len() ==> #[trigger] order.contains(p),
        forall|i: int|
            0 <= i < output.len() ==> #[trigger] order[i] < input.len() && output[i]
                == input[order[i] as int],
        forall|i: int, j: int|
            0 <= i < j < output.len() ==> {
                &&& !ahead(#[trigger] output[j], #[trigger] output[i])
                &&& !ahead(output[i], output[j]) ==> order[i] < order[j]
            },
{
    let order = choose|order: Seq<usize>| #[trigger]
        stable_order(input, ahead, order) && output == arranged(input, order);
    assert forall|v: V| !#[trigger] ahead(v, v) by {
        if ahead(v, v) {
            assert(!ahead(v, v));
        }
    }
    lemma_stable_order_lists_all(input, ahead, order);
    assert forall|i: int| 0 <= i < output.len() implies #[trigger] order[i] < input.len()
        && output[i] == input[order[i] as int] by {}
    assert forall|i: int, j: int| 0 <= i < j < output.len() implies {
        &&& !ahead(#[trigger] output[j], #[trigger] output[i])
        &&& !ahead(output[i], output[j]) ==> order[i] < order[j]
    } by {
        assert(precedes(input, ahead, order[i] as int, order[j] as int));
        assert(output[i] == input[order[i] as int]);
        assert(output[j] == input[order[j] as int]);
    }
    order
}

} // verus!
