//! The list of transfers, latest first, and what of it is kept on disk.

use crate::model::{TransferSnapshot, TransferView, MAX_HISTORY_ITEMS};
use crate::order::{
    arrange, by_latest, key_views, lemma_stable_order_lists_all, precedes, record_views,
    sort_keys, LatestFirst,
};
use crate::registry::{
    entered, lemma_entered_lists, lemma_lists_arranged, lemma_lists_len, lists, unique_ids,
    Registry,
};
use vstd::prelude::*;

verus! {

/// Whether no transfer of a list was updated after an earlier one.
pub open spec fn latest_first(s: Seq<TransferView>) -> bool {
    forall|i: int, j: int|
        0 <= i < j < s.len() ==> (#[trigger] s[i]).updated_at_ms >= (
        #[trigger] s[j]).updated_at_ms
}

/// Whether `s` is what is kept on disk of the transfers `m`: the latest ones,
/// in order, at most as many as there is room for.
pub open spec fn kept_on_disk(s: Seq<TransferView>, m: Map<Seq<char>, TransferView>) -> bool {
    &&& s.len() == (if m.dom().len() <= MAX_HISTORY_ITEMS {
        m.dom().len()
    } else {
        MAX_HISTORY_ITEMS as nat
    })
    &&& unique_ids::<TransferSnapshot>(s)
    &&& latest_first(s)
    &&& forall|i: int| 0 <= i < s.len() ==> m.contains_key((#[trigger] s[i]).id) && m[s[i].id] == s[i]
    &&& forall|k: Seq<char>, i: int|
        #![trigger m.contains_key(k), s[i]]
        m.contains_key(k) && 0 <= i < s.len() && !s.contains(m[k]) ==> m[k].updated_at_ms
            <= s[i].updated_at_ms
}

/// All transfers, latest first.
pub fn list_latest_first(transfers: &Registry<TransferSnapshot>) -> (r: Vec<TransferSnapshot>)
    requires
        transfers.wf(),
    ensures
        lists::<TransferSnapshot>(record_views(r@), transfers@),
        latest_first(record_views(r@)),
{
    let all = transfers.all();
    let ghost views = record_views(all@);
    let mut keys: Vec<LatestFirst> = Vec::new();
    for i in 0..all.len()
        invariant
            views == record_views(all@),
            keys.len() == i,
            forall|k: int| 0 <= k < i ==> (#[trigger] keys[k])@ == views[k].updated_at_ms,
    {
        keys.push(LatestFirst { at_ms: all[i].updated_at_ms });
    }
    let order = sort_keys(&keys);
    let ghost kv = key_views(keys@);
    let items = arrange(&all, &order);
    proof {
        lemma_stable_order_lists_all(kv, by_latest(), order@);
        lemma_lists_arranged::<TransferSnapshot>(views, transfers@, order@);
        let out = record_views(items@);
        assert forall|i: int, j: int| 0 <= i < j < out.len() implies (
        #[trigger] out[i]).updated_at_ms >= (#[trigger] out[j]).updated_at_ms by {
            assert(precedes(kv, by_latest(), order[i] as int, order[j] as int));
            assert(out[i] == views[order[i] as int]);
            assert(out[j] == views[order[j] as int]);
        }
    }
    items
}

/// The transfers that are kept on disk.
pub fn history_to_keep(transfers: &Registry<TransferSnapshot>) -> (r: Vec<TransferSnapshot>)
    requires
        transfers.wf(),
    ensures
        kept_on_disk(record_views(r@), transfers@),
{
    let mut items = list_latest_first(transfers);
    let ghost all = record_views(items@);
    let ghost m = transfers@;
    proof {
        lemma_lists_len::<TransferSnapshot>(all, m);
    }
    items.truncate(MAX_HISTORY_ITEMS);
    proof {
        let s = record_views(items@);
        assert(s =~= all.take(s.len() as int));
        assert forall|i: int, j: int| 0 <= i < j < s.len() implies (#[trigger] s[i]).id != (
        #[trigger] s[j]).id by {
            assert(all[i].id != all[j].id);
        }
        assert forall|i: int, j: int| 0 <= i < j < s.len() implies (#[trigger] s[i]).updated_at_ms
            >= (#[trigger] s[j]).updated_at_ms by {
            assert(all[i].updated_at_ms >= all[j].updated_at_ms);
        }
        assert forall|i: int| 0 <= i < s.len() implies m.contains_key((#[trigger] s[i]).id)
            && m[s[i].id] == s[i] by {
            assert(s[i] == all[i]);
        }
        assert forall|k: Seq<char>, i: int|
            #![trigger m.contains_key(k), s[i]]
            m.contains_key(k) && 0 <= i < s.len() && !s.contains(m[k]) implies m[k].updated_at_ms
            <= s[i].updated_at_ms by {
            let j = choose|j: int| 0 <= j < all.len() && (#[trigger] all[j]).id == k;
            assert(m[all[j].id] == all[j]);
            if j < s.len() {
                assert(s[j] == m[k]);
            } else {
                assert(all[i].updated_at_ms >= all[j].updated_at_ms);
                assert(s[i] == all[i]);
            }
        }
    }
    items
}

/// What is kept on disk is read back as it was: every transfer that is read is
/// one that was written, and with room for all transfers the table that is read
/// is the table that was written.
pub proof fn lemma_history_round_trip(s: Seq<TransferView>, m: Map<Seq<char>, TransferView>)
    requires
        kept_on_disk(s, m),
        m.dom().finite(),
    ensures
        entered::<TransferSnapshot>(s).submap_of(m),
        m.dom().len() <= MAX_HISTORY_ITEMS ==> entered::<TransferSnapshot>(s) == m,
{
    lemma_entered_lists::<TransferSnapshot>(s);
    let e = entered::<TransferSnapshot>(s);
    lemma_lists_len::<TransferSnapshot>(s, e);
    assert forall|k: Seq<char>| #[trigger] e.contains_key(k) implies m.contains_key(k) && e[k]
        == m[k] by {
        let i = choose|i: int| 0 <= i < s.len() && (#[trigger] s[i]).id == k;
        assert(e[s[i].id] == s[i]);
        assert(m[s[i].id] == s[i]);
    }
    if m.dom().len() <= MAX_HISTORY_ITEMS {
        assert(e.dom().subset_of(m.dom()));
        vstd::set_lib::lemma_subset_equality(e.dom(), m.dom());
        assert(e =~= m);
    }
}

/// What is kept on disk are the latest transfers, each once and latest first:
/// all of them up to three hundred, and none in place of one that changed later.
pub proof fn lemma_latest_are_kept(
    s: Seq<TransferView>,
    m: Map<Seq<char>, TransferView>,
    i: int,
    j: int,
    k: Seq<char>,
)
    requires
        kept_on_disk(s, m),
        0 <= i < j < s.len(),
        m.contains_key(k),
    ensures
        m.dom().len() <= 300 ==> s.len() == m.dom().len(),
        m.dom().len() > 300 ==> s.len() == 300,
        s[i].id != s[j].id,
        s[i].updated_at_ms >= s[j].updated_at_ms,
        m.contains_key(s[i].id) && m[s[i].id] == s[i],
        m[k].updated_at_ms > s[i].updated_at_ms ==> s.contains(m[k]),
{
    assert(s[i].id != s[j].id);
}

/// In a list of transfers with the latest first, none changed after one before
/// it.
pub proof fn lemma_latest_first(s: Seq<TransferView>, i: int, j: int)
    requires
        latest_first(s),
        0 <= i <= j < s.len(),
    ensures
        s[i].updated_at_ms >= s[j].updated_at_ms,
{
}

} // verus!
