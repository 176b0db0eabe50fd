//! A table of records, one for each id.

use crate::model::{DeviceSnapshot, DeviceView, PendingIncoming, TransferSnapshot, TransferView};
use crate::order::{arranged, record_views, Replica};
use crate::text::same_text;
use vstd::prelude::*;

verus! {

/// A record that is known by an id.
pub trait Entry: Replica {
    /// The id of a record.
    spec fn id_of(v: Self::V) -> Seq<char>;

    /// The id of this record.
    fn id(&self) -> (r: &String)
        ensures
            r@ == Self::id_of(self@),
    ;
}

/// Whether `s` lists every record of `m` exactly once.
pub open spec fn lists<T: Entry>(s: Seq<T::V>, m: Map<Seq<char>, T::V>) -> bool {
    &&& forall|i: int|
        0 <= i < s.len() ==> m.contains_key(T::id_of(#[trigger] s[i])) && m[T::id_of(s[i])] == s[i]
    &&& forall|k: Seq<char>| #[trigger] m.contains_key(k) ==> has_id::<T>(s, k)
    &&& unique_ids::<T>(s)
}

/// Whether some record has the id.
pub open spec fn has_id<T: Entry>(s: Seq<T::V>, k: Seq<char>) -> bool {
    exists|i: int| 0 <= i < s.len() && T::id_of(#[trigger] s[i]) == k
}

/// Whether no two records have the same id.
pub open spec fn unique_ids<T: Entry>(s: Seq<T::V>) -> bool {
    forall|i: int, j: int|
        0 <= i < j < s.len() ==> T::id_of(#[trigger] s[i]) != T::id_of(#[trigger] s[j])
}

/// The table that results when records are entered one after the other, a
/// later one in place of an earlier one with the same id.
pub open spec fn entered<T: Entry>(s: Seq<T::V>) -> Map<Seq<char>, T::V>
    decreases s.len(),
{
    if s.len() == 0 {
        Map::empty()
    } else {
        entered::<T>(s.drop_last()).insert(T::id_of(s.last()), s.last())
    }
}

/// Two tables that have the same listing are equal.
pub proof fn lemma_lists_unique<T: Entry>(
    s: Seq<T::V>,
    m: Map<Seq<char>, T::V>,
    n: Map<Seq<char>, T::V>,
)
    requires
        lists::<T>(s, m),
        lists::<T>(s, n),
    ensures
        m == n,
{
    assert forall|k: Seq<char>| m.contains_key(k) == n.contains_key(k) by {
        if m.contains_key(k) {
            let i = choose|i: int| 0 <= i < s.len() && T::id_of(#[trigger] s[i]) == k;
            assert(n.contains_key(T::id_of(s[i])));
        }
        if n.contains_key(k) {
            let i = choose|i: int| 0 <= i < s.len() && T::id_of(#[trigger] s[i]) == k;
            assert(m.contains_key(T::id_of(s[i])));
        }
    }
    assert forall|k: Seq<char>| m.contains_key(k) implies m[k] == n[k] by {
        let i = choose|i: int| 0 <= i < s.len() && T::id_of(#[trigger] s[i]) == k;
        assert(m[T::id_of(s[i])] == s[i]);
        assert(n[T::id_of(s[i])] == s[i]);
    }
    assert(m =~= n);
}

/// A listing is as long as its table is large.
pub proof fn lemma_lists_len<T: Entry>(s: Seq<T::V>, m: Map<Seq<char>, T::V>)
    requires
        lists::<T>(s, m),
    ensures
        m.dom().finite(),
        m.dom().len() == s.len(),
{
    let ids = s.map_values(|v: T::V| T::id_of(v));
    assert(ids.no_duplicates()) by {
        assert forall|i: int, j: int| 0 <= i < ids.len() && 0 <= j < ids.len() && i != j implies
            ids[i] != ids[j] by {
            if i < j {
                assert(T::id_of(s[i]) != T::id_of(s[j]));
            } else {
                assert(T::id_of(s[j]) != T::id_of(s[i]));
            }
        }
    }
    ids.unique_seq_to_set();
    assert(ids.to_set() =~= m.dom()) by {
        assert forall|k: Seq<char>| ids.to_set().contains(k) == m.dom().contains(k) by {
            if ids.to_set().contains(k) {
                let i = choose|i: int| 0 <= i < ids.len() && ids[i] == k;
                assert(m.contains_key(T::id_of(s[i])));
            }
            if m.contains_key(k) {
                let i = choose|i: int| 0 <= i < s.len() && T::id_of(#[trigger] s[i]) == k;
                assert(ids[i] == k);
            }
        }
    }
}

/// Records with different ids are all kept when they are entered.
pub proof fn lemma_entered_lists<T: Entry>(s: Seq<T::V>)
    requires
        unique_ids::<T>(s),
    ensures
        lists::<T>(s, entered::<T>(s)),
    decreases s.len(),
{
    if s.len() > 0 {
        let front = s.drop_last();
        lemma_entered_lists::<T>(front);
        let m = entered::<T>(s);
        assert forall|i: int| 0 <= i < s.len() implies m.contains_key(T::id_of(#[trigger] s[i]))
            && m[T::id_of(s[i])] == s[i] by {
            if i < s.len() - 1 {
                assert(front[i] == s[i]);
                assert(T::id_of(s[i]) != T::id_of(s[s.len() - 1]));
            }
        }
        assert forall|k: Seq<char>| #[trigger] m.contains_key(k) implies has_id::<T>(s, k) by {
            if k == T::id_of(s.last()) {
                assert(T::id_of(s[s.len() - 1]) == k);
            } else {
                assert(entered::<T>(front).contains_key(k));
                let i = choose|i: int| 0 <= i < front.len() && T::id_of(#[trigger] front[i]) == k;
                assert(T::id_of(s[i]) == k);
            }
        }
    }
}

/// Reading the records of a listing in another order gives a listing again.
pub proof fn lemma_lists_arranged<T: Entry>(
    s: Seq<T::V>,
    m: Map<Seq<char>, T::V>,
    order: Seq<usize>,
)
    requires
        lists::<T>(s, m),
        order.len() == s.len(),
        order.no_duplicates(),
        forall|i: int| 0 <= i < order.len() ==> #[trigger] order[i] < s.len(),
        forall|p: usize| p < s.len() ==> #[trigger] order.contains(p),
        s.len() <= usize::MAX,
    ensures
        lists::<T>(arranged(s, order), m),
{
    let out = arranged(s, order);
    assert forall|i: int| 0 <= i < out.len() implies m.contains_key(T::id_of(#[trigger] out[i]))
        && m[T::id_of(out[i])] == out[i] by {
        assert(out[i] == s[order[i] as int]);
    }
    assert forall|k: Seq<char>| #[trigger] m.contains_key(k) implies has_id::<T>(out, k) by {
        let i = choose|i: int| 0 <= i < s.len() && T::id_of(#[trigger] s[i]) == k;
        assert(order.contains(i as usize));
        let j = choose|j: int| 0 <= j < order.len() && order[j] == i as usize;
        assert(T::id_of(out[j]) == k);
    }
    assert forall|i: int, j: int| 0 <= i < j < out.len() implies T::id_of(#[trigger] out[i])
        != T::id_of(#[trigger] out[j]) by {
        let (a, b) = (order[i] as int, order[j] as int);
        assert(a != b);
        if a < b {
            assert(T::id_of(s[a]) != T::id_of(s[b]));
        } else {
            assert(T::id_of(s[b]) != T::id_of(s[a]));
        }
    }
}

/// A table of records with different ids.
#[derive(Debug)]
pub struct Registry<T: Entry> {
    items: Vec<T>,
}

impl<T: Entry> View for Registry<T> {
    type V = Map<Seq<char>, T::V>;

    closed spec fn view(&self) -> Map<Seq<char>, T::V> {
        entered::<T>(record_views(self.items@))
    }
}

impl<T: Entry> Registry<T> {
    /// No id occurs twice.
    pub closed spec fn wf(&self) -> bool {
        unique_ids::<T>(record_views(self.items@))
    }

    /// Every record is kept under its own id.
    pub proof fn lemma_keys(&self)
        requires
            self.wf(),
        ensures
            forall|k: Seq<char>| #[trigger]
                self@.contains_key(k) ==> T::id_of(self@[k]) == k,
    {
        let views = record_views(self.items@);
        lemma_entered_lists::<T>(views);
        assert forall|k: Seq<char>| #[trigger] self@.contains_key(k) implies T::id_of(self@[k])
            == k by {
            let i = choose|i: int| 0 <= i < views.len() && T::id_of(#[trigger] views[i]) == k;
            assert(self@[T::id_of(views[i])] == views[i]);
        }
    }

    /// The empty table.
    pub fn new() -> (r: Self)
        ensures
            r.wf(),
            r@ == Map::<Seq<char>, T::V>::empty(),
    {
        let r = Registry { items: Vec::new() };
        assert(record_views(r.items@) =~= Seq::<T::V>::empty());
        r
    }

    fn position(&self, id: &str) -> (r: Option<usize>)
        requires
            self.wf(),
        ensures
            match r {
                Some(i) => i < self.items.len() && T::id_of(self.items[i as int]@) == id@,
                None => forall|i: int|
                    0 <= i < self.items.len() ==> T::id_of((#[trigger] self.items[i])@) != id@,
            },
    {
        for i in 0..self.items.len()
            invariant
                forall|j: int| 0 <= j < i ==> T::id_of((#[trigger] self.items[j])@) != id@,
        {
            if same_text(self.items[i].id(), id) {
                return Some(i);
            }
        }
        None
    }

    /// The record with the id.
    pub fn get(&self, id: &str) -> (r: Option<&T>)
        requires
            self.wf(),
        ensures
            match r {
                Some(t) => self@.contains_key(id@) && t@ == self@[id@],
                None => !self@.contains_key(id@),
            },
    {
        let ghost views = record_views(self.items@);
        proof {
            lemma_entered_lists::<T>(views);
        }
        match self.position(id) {
            Some(i) => {
                assert(views[i as int] == self.items[i as int]@);
                Some(&self.items[i])
            },
            None => {
                proof {
                    if self@.contains_key(id@) {
                        let i = choose|i: int|
                            0 <= i < views.len() && T::id_of(#[trigger] views[i]) == id@;
                        assert(views[i] == self.items[i]@);
                    }
                }
                None
            },
        }
    }

    /// Enters a record in place of any other with the same id.
    pub fn insert(&mut self, item: T)
        requires
            old(self).wf(),
        ensures
            final(self).wf(),
            final(self)@ == old(self)@.insert(T::id_of(item@), item@),
    {
        let ghost before = record_views(self.items@);
        let ghost k = T::id_of(item@);
        let ghost v = item@;
        let found = self.position(item.id());
        proof {
            lemma_entered_lists::<T>(before);
        }
        match found {
            Some(i) => {
                self.items.set(i, item);
                let ghost after = record_views(self.items@);
                proof {
                    assert(after =~= before.update(i as int, v));
                    assert(T::id_of(before[i as int]) == k);
                    assert forall|a: int, b: int| 0 <= a < b < after.len() implies T::id_of(
                        #[trigger] after[a],
                    ) != T::id_of(#[trigger] after[b]) by {
                        assert(T::id_of(before[a]) != T::id_of(before[b]));
                    }
                    lemma_entered_lists::<T>(after);
                    let m = entered::<T>(before).insert(k, v);
                    assert(lists::<T>(after, m)) by {
                        assert forall|a: int| 0 <= a < after.len() implies m.contains_key(
                            T::id_of(#[trigger] after[a]),
                        ) && m[T::id_of(after[a])] == after[a] by {
                            if a != i {
                                assert(before[a] == after[a]);
                                if a < i {
                                    assert(T::id_of(before[a]) != T::id_of(before[i as int]));
                                } else {
                                    assert(T::id_of(before[i as int]) != T::id_of(before[a]));
                                }
                            }
                        }
                        assert forall|x: Seq<char>| #[trigger] m.contains_key(x) implies has_id::<
                            T,
                        >(after, x) by {
                            if x == k {
                                assert(T::id_of(after[i as int]) == k);
                            } else {
                                assert(entered::<T>(before).contains_key(x));
                                let a = choose|a: int|
                                    0 <= a < before.len() && T::id_of(#[trigger] before[a]) == x;
                                assert(after[a] == before[a]);
                            }
                        }
                    }
                    lemma_lists_unique::<T>(after, m, entered::<T>(after));
                }
            },
            None => {
                let ghost old_items = self.items@;
                self.items.push(item);
                let ghost after = record_views(self.items@);
                proof {
                    assert(after =~= before.push(v));
                    assert(after.drop_last() =~= before);
                    assert forall|a: int, b: int| 0 <= a < b < after.len() implies T::id_of(
                        #[trigger] after[a],
                    ) != T::id_of(#[trigger] after[b]) by {
                        if b < before.len() {
                            assert(T::id_of(before[a]) != T::id_of(before[b]));
                        } else {
                            assert(after[a] == old_items[a]@);
                        }
                    }
                }
            },
        }
    }

    /// Takes the record with the id out of the table.
    pub fn remove(&mut self, id: &str) -> (r: Option<T>)
        requires
            old(self).wf(),
        ensures
            final(self).wf(),
            final(self)@ == old(self)@.remove(id@),
            match r {
                Some(t) => old(self)@.contains_key(id@) && t@ == old(self)@[id@],
                None => !old(self)@.contains_key(id@),
            },
    {
        let ghost before = record_views(self.items@);
        proof {
            lemma_entered_lists::<T>(before);
        }
        match self.position(id) {
            Some(i) => {
                let ghost m = entered::<T>(before).remove(id@);
                assert(before[i as int] == self.items[i as int]@);
                let t = self.items.remove(i);
                let ghost after = record_views(self.items@);
                proof {
                    assert(after =~= before.remove(i as int));
                    assert forall|a: int, b: int| 0 <= a < b < after.len() implies T::id_of(
                        #[trigger] after[a],
                    ) != T::id_of(#[trigger] after[b]) by {
                        let x = if a < i { a } else { a + 1 };
                        let y = if b < i { b } else { b + 1 };
                        assert(T::id_of(before[x]) != T::id_of(before[y]));
                    }
                    lemma_entered_lists::<T>(after);
                    assert(lists::<T>(after, m)) by {
                        assert forall|a: int| 0 <= a < after.len() implies m.contains_key(
                            T::id_of(#[trigger] after[a]),
                        ) && m[T::id_of(after[a])] == after[a] by {
                            let x = if a < i { a } else { a + 1 };
                            assert(before[x] == after[a]);
                            if x < i {
                                assert(T::id_of(before[x]) != T::id_of(before[i as int]));
                            } else {
                                assert(T::id_of(before[i as int]) != T::id_of(before[x]));
                            }
                        }
                        assert forall|x: Seq<char>| #[trigger] m.contains_key(x) implies has_id::<
                            T,
                        >(after, x) by {
                            assert(entered::<T>(before).contains_key(x));
                            let a = choose|a: int|
                                0 <= a < before.len() && T::id_of(#[trigger] before[a]) == x;
                            if a < i {
                                assert(after[a] == before[a]);
                            } else {
                                assert(after[a - 1] == before[a]);
                            }
                        }
                    }
                    lemma_lists_unique::<T>(after, m, entered::<T>(after));
                }
                Some(t)
            },
            None => {
                proof {
                    if self@.contains_key(id@) {
                        let i = choose|i: int|
                            0 <= i < before.len() && T::id_of(#[trigger] before[i]) == id@;
                        assert(before[i] == self.items[i]@);
                    }
                    assert(self@.remove(id@) =~= self@);
                }
                None
            },
        }
    }

    /// Copies of all records.
    pub fn all(&self) -> (r: Vec<T>)
        requires
            self.wf(),
        ensures
            lists::<T>(record_views(r@), self@),
    {
        let ghost views = record_views(self.items@);
        let mut r: Vec<T> = Vec::new();
        for i in 0..self.items.len()
            invariant
                views == record_views(self.items@),
                record_views(r@) == views.take(i as int),
        {
            let t = self.items[i].replica();
            let ghost before = r@;
            r.push(t);
            assert(record_views(r@) =~= record_views(before).push(t@));
            assert(record_views(r@) =~= views.take(i + 1));
        }
        assert(views.take(views.len() as int) =~= views);
        proof {
            lemma_entered_lists::<T>(views);
        }
        r
    }

    /// The table of the given records, entered one after the other.
    pub fn from_items(items: Vec<T>) -> (r: Self)
        ensures
            r.wf(),
            r@ == entered::<T>(record_views(items@)),
    {
        let mut r: Registry<T> = Registry::new();
        let ghost views = record_views(items@);
        assert(views.take(0) =~= Seq::<T::V>::empty());
        for i in 0..items.len()
            invariant
                views == record_views(items@),
                r.wf(),
                r@ == entered::<T>(views.take(i as int)),
        {
            r.insert(items[i].replica());
            assert(views.take(i + 1).drop_last() =~= views.take(i as int));
        }
        assert(views.take(views.len() as int) =~= views);
        r
    }
}

impl Replica for DeviceSnapshot {
    fn replica(&self) -> (r: Self) {
        self.clone()
    }
}

impl Entry for DeviceSnapshot {
    open spec fn id_of(v: DeviceView) -> Seq<char> {
        v.id
    }

    fn id(&self) -> (r: &String) {
        &self.id
    }
}

impl Replica for TransferSnapshot {
    fn replica(&self) -> (r: Self) {
        self.clone()
    }
}

impl Entry for TransferSnapshot {
    open spec fn id_of(v: TransferView) -> Seq<char> {
        v.id
    }

    fn id(&self) -> (r: &String) {
        &self.id
    }
}

impl Replica for PendingIncoming {
    fn replica(&self) -> (r: Self) {
        PendingIncoming { transfer: self.transfer.clone() }
    }
}

impl Entry for PendingIncoming {
    open spec fn id_of(v: TransferView) -> Seq<char> {
        v.id
    }

    fn id(&self) -> (r: &String) {
        &self.transfer.id
    }
}

/// The table that results when records are entered has under each id the last
/// record with that id, and no other ids.
pub proof fn lemma_entered_keeps_the_last<T: Entry>(s: Seq<T::V>, i: int)
    requires
        0 <= i < s.len(),
        forall|j: int| i < j < s.len() ==> T::id_of(#[trigger] s[j]) != T::id_of(s[i]),
    ensures
        entered::<T>(s).contains_key(T::id_of(s[i])),
        entered::<T>(s)[T::id_of(s[i])] == s[i],
    decreases s.len(),
{
    if i < s.len() - 1 {
        assert(T::id_of(s[s.len() - 1]) != T::id_of(s[i]));
        let front = s.drop_last();
        assert forall|j: int| i < j < front.len() implies T::id_of(#[trigger] front[j])
            != T::id_of(front[i]) by {
            assert(front[j] == s[j]);
        }
        lemma_entered_keeps_the_last::<T>(front, i);
    }
}

/// Only ids of records that were entered are in the table.
pub proof fn lemma_entered_only<T: Entry>(s: Seq<T::V>, k: Seq<char>)
    requires
        forall|i: int| 0 <= i < s.len() ==> T::id_of(#[trigger] s[i]) != k,
    ensures
        !entered::<T>(s).contains_key(k),
    decreases s.len(),
{
    if s.len() > 0 {
        assert(T::id_of(s[s.len() - 1]) != k);
        assert forall|i: int| 0 <= i < s.drop_last().len() implies T::id_of(
            #[trigger] s.drop_last()[i],
        ) != k by {
            assert(s.drop_last()[i] == s[i]);
        }
        lemma_entered_only::<T>(s.drop_last(), k);
    }
}

/// A list that lists a table has every record of the table, no other, and none
/// twice.
pub proof fn lemma_lists<T: Entry>(
    s: Seq<T::V>,
    m: Map<Seq<char>, T::V>,
    k: Seq<char>,
    a: int,
    b: int,
) -> (i: int)
    requires
        lists::<T>(s, m),
        0 <= a < s.len(),
        0 <= b < s.len(),
    ensures
        m.contains_key(k) ==> 0 <= i < s.len() && s[i] == m[k] && T::id_of(s[i]) == k,
        m.contains_key(T::id_of(s[a])) && m[T::id_of(s[a])] == s[a],
        a != b ==> T::id_of(s[a]) != T::id_of(s[b]),
{
    if a < b {
        assert(T::id_of(s[a]) != T::id_of(s[b]));
    } else if b < a {
        assert(T::id_of(s[b]) != T::id_of(s[a]));
    }
    if m.contains_key(k) {
        assert(has_id::<T>(s, k));
        let i = choose|i: int| 0 <= i < s.len() && T::id_of(#[trigger] s[i]) == k;
        assert(m[T::id_of(s[i])] == s[i]);
        i
    } else {
        0
    }
}

} // verus!
