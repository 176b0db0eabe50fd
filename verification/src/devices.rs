//! The other devices: who is still there, and in which order they are listed.

use crate::model::{Config, ConfigView, DeviceSnapshot, DeviceView, DEVICE_STALE_MS};
use crate::order::{
    arrange, arranged, key_views, lemma_stable_order_lists_all, record_views, sort_keys,
    stable_order, Ranked,
};
use crate::registry::{entered, has_id, lemma_entered_lists, lemma_lists_arranged, lemma_lists_unique,
    lists, unique_ids, Registry};
use crate::text::{
    chars_of, is_text_less, lemma_text_less_irreflexive, lemma_text_less_total,
    lemma_text_less_transitive, text_less,
};
use vstd::prelude::*;

verus! {

/// What `str::to_lowercase` makes of a text.
pub uninterp spec fn lowercase(s: Seq<char>) -> Seq<char>;

/// `str::to_lowercase`: the lowercase equivalent of a text after Unicode, a
/// function of the text alone.
#[verifier::external_body]
fn to_lowercase(s: &str) -> (r: String)
    ensures
        r@ == lowercase(s@),
{
    s.to_lowercase()
}

/// By what a device is listed: whether it was added by hand, and its name in
/// lowercase.
pub struct ListingKey {
    pub is_manual: bool,
    pub name: Vec<char>,
}

impl View for ListingKey {
    type V = (bool, Seq<char>);

    open spec fn view(&self) -> (bool, Seq<char>) {
        (self.is_manual, self.name@)
    }
}

/// Devices that were discovered first, then by name.
pub open spec fn by_listing() -> spec_fn((bool, Seq<char>), (bool, Seq<char>)) -> bool {
    |a: (bool, Seq<char>), b: (bool, Seq<char>)|
        (!a.0 && b.0) || (a.0 == b.0 && text_less(a.1, b.1))
}

impl Ranked for ListingKey {
    open spec fn ahead() -> spec_fn((bool, Seq<char>), (bool, Seq<char>)) -> bool {
        by_listing()
    }

    proof fn lemma_irreflexive(a: (bool, Seq<char>)) {
        lemma_text_less_irreflexive(a.1);
    }

    proof fn lemma_transitive(a: (bool, Seq<char>), b: (bool, Seq<char>), c: (bool, Seq<char>)) {
        if a.0 == b.0 && b.0 == c.0 {
            lemma_text_less_transitive(a.1, b.1, c.1);
        }
    }

    proof fn lemma_separates(a: (bool, Seq<char>), b: (bool, Seq<char>), c: (bool, Seq<char>)) {
        lemma_text_less_total(a.1, b.1);
        if text_less(b.1, a.1) && text_less(a.1, c.1) {
            lemma_text_less_transitive(b.1, a.1, c.1);
        }
    }

    fn is_ahead(&self, other: &Self) -> (r: bool) {
        (!self.is_manual && other.is_manual) || (self.is_manual == other.is_manual
            && is_text_less(&self.name, &other.name))
    }
}

/// The keys of devices whose lowercase names are given.
pub open spec fn listing_keys(devices: Seq<DeviceView>, lowered: Seq<Seq<char>>) -> Seq<
    (bool, Seq<char>),
> {
    Seq::new(devices.len(), |i: int| (devices[i].is_manual, lowered[i]))
}

/// Whether `output` lists `devices` by their keys.
pub open spec fn listed_by(
    devices: Seq<DeviceView>,
    lowered: Seq<Seq<char>>,
    output: Seq<DeviceView>,
) -> bool {
    exists|order: Seq<usize>| #[trigger]
        stable_order(listing_keys(devices, lowered), by_listing(), order) && output == arranged(
            devices,
            order,
        )
}

/// The lowercase names of devices.
pub open spec fn lowered_names(devices: Seq<DeviceView>) -> Seq<Seq<char>> {
    devices.map_values(|d: DeviceView| lowercase(d.name))
}

/// Lists devices whose lowercase names are given.
pub fn list_by_names(devices: &Vec<DeviceSnapshot>, lowered: &Vec<String>) -> (r: Vec<
    DeviceSnapshot,
>)
    requires
        lowered.len() == devices.len(),
    ensures
        listed_by(record_views(devices@), crate::text::texts(lowered@), record_views(r@)),
{
    let ghost views = record_views(devices@);
    let ghost names = crate::text::texts(lowered@);
    let mut keys: Vec<ListingKey> = Vec::new();
    for i in 0..devices.len()
        invariant
            lowered.len() == devices.len(),
            views == record_views(devices@),
            names == crate::text::texts(lowered@),
            keys.len() == i,
            forall|k: int| 0 <= k < i ==> (#[trigger] keys[k])@ == (views[k].is_manual, names[k]),
    {
        keys.push(
            ListingKey { is_manual: devices[i].is_manual, name: chars_of(&lowered[i]) },
        );
    }
    assert(key_views(keys@) =~= listing_keys(views, names));
    let order = sort_keys(&keys);
    arrange(devices, &order)
}

/// Lists devices: those that were discovered first, then by name without
/// regard to case.
pub fn list_devices(devices: &Vec<DeviceSnapshot>) -> (r: Vec<DeviceSnapshot>)
    ensures
        listed_by(
            record_views(devices@),
            lowered_names(record_views(devices@)),
            record_views(r@),
        ),
{
    let ghost views = record_views(devices@);
    let mut lowered: Vec<String> = Vec::new();
    for i in 0..devices.len()
        invariant
            views == record_views(devices@),
            lowered.len() == i,
            forall|k: int| 0 <= k < i ==> (#[trigger] lowered[k])@ == lowercase(views[k].name),
    {
        lowered.push(to_lowercase(&devices[i].name));
    }
    assert(crate::text::texts(lowered@) =~= lowered_names(views));
    list_by_names(devices, &lowered)
}

/// Whether no device of a list should come before an earlier one.
pub open spec fn in_listing_order(s: Seq<DeviceView>) -> bool {
    forall|i: int, j: int|
        0 <= i < j < s.len() ==> !by_listing()(
            ((#[trigger] s[j]).is_manual, lowercase(s[j].name)),
            ((#[trigger] s[i]).is_manual, lowercase(s[i].name)),
        )
}

/// A list that was sorted holds the same devices and is in order.
proof fn lemma_listed(
    devices: Seq<DeviceView>,
    output: Seq<DeviceView>,
    m: Map<Seq<char>, DeviceView>,
)
    requires
        listed_by(devices, lowered_names(devices), output),
        lists::<DeviceSnapshot>(devices, m),
        devices.len() <= usize::MAX,
    ensures
        lists::<DeviceSnapshot>(output, m),
        in_listing_order(output),
{
    let keys = listing_keys(devices, lowered_names(devices));
    let order = choose|order: Seq<usize>| #[trigger]
        stable_order(keys, by_listing(), order) && output == arranged(devices, order);
    assert forall|v: (bool, Seq<char>)| !#[trigger] by_listing()(v, v) by {
        ListingKey::lemma_irreflexive(v);
    }
    lemma_stable_order_lists_all(keys, by_listing(), order);
    lemma_lists_arranged::<DeviceSnapshot>(devices, m, order);
    assert forall|i: int, j: int| 0 <= i < j < output.len() implies !by_listing()(
        ((#[trigger] output[j]).is_manual, lowercase(output[j].name)),
        ((#[trigger] output[i]).is_manual, lowercase(output[i].name)),
    ) by {
        let (a, b) = (order[i] as int, order[j] as int);
        assert(crate::order::precedes(keys, by_listing(), a, b));
        assert(output[i] == devices[a]);
        assert(output[j] == devices[b]);
        assert(keys[a] == (devices[a].is_manual, lowercase(devices[a].name)));
        assert(keys[b] == (devices[b].is_manual, lowercase(devices[b].name)));
        if by_listing()(keys[b], keys[a]) && by_listing()(keys[a], keys[b]) {
            ListingKey::lemma_transitive(keys[a], keys[b], keys[a]);
            ListingKey::lemma_irreflexive(keys[a]);
        }
    }
}

/// Whether a device is still there: it was added by hand, or it was heard of
/// not too long ago.
pub open spec fn still_there(d: DeviceView, now_ms: u128) -> bool {
    d.is_manual || now_ms <= d.last_seen_ms + DEVICE_STALE_MS
}

/// Whether a device is still there.
pub fn is_still_there(d: &DeviceSnapshot, now_ms: u128) -> (r: bool)
    ensures
        r == still_there(d@, now_ms),
{
    d.is_manual || now_ms.saturating_sub(d.last_seen_ms) <= DEVICE_STALE_MS
}

/// A device with its mark of trust brought up to date.
pub open spec fn with_mark(d: DeviceView, config: ConfigView) -> DeviceView {
    DeviceView { is_trusted: config.trusts(d.id), ..d }
}

/// The devices that are still there, with their marks of trust brought up to
/// date.
pub open spec fn refreshed(
    devices: Map<Seq<char>, DeviceView>,
    config: ConfigView,
    now_ms: u128,
) -> Map<Seq<char>, DeviceView> {
    Map::new(
        |k: Seq<char>| devices.contains_key(k) && still_there(devices[k], now_ms),
        |k: Seq<char>| with_mark(devices[k], config),
    )
}

/// Whether one of the first `n` devices has the id.
spec fn id_among(devices: Seq<DeviceView>, n: int, id: Seq<char>) -> bool {
    exists|j: int| 0 <= j < n && (#[trigger] devices[j]).id == id
}

/// Forgets devices that are no longer there, brings marks of trust up to date,
/// and lists the devices.
pub fn refresh_devices(
    devices: &mut Registry<DeviceSnapshot>,
    config: &Config,
    now_ms: u128,
) -> (r: Vec<DeviceSnapshot>)
    requires
        old(devices).wf(),
    ensures
        final(devices).wf(),
        final(devices)@ == refreshed(old(devices)@, config@, now_ms),
        lists::<DeviceSnapshot>(record_views(r@), final(devices)@),
        in_listing_order(record_views(r@)),
{
    let all = devices.all();
    let ghost before = devices@;
    let ghost views = record_views(all@);
    let mut kept: Vec<DeviceSnapshot> = Vec::new();
    for i in 0..all.len()
        invariant
            views == record_views(all@),
            lists::<DeviceSnapshot>(views, before),
            unique_ids::<DeviceSnapshot>(record_views(kept@)),
            forall|k: int|
                0 <= k < kept.len() ==> {
                    let d = (#[trigger] kept[k])@;
                    &&& before.contains_key(d.id)
                    &&& still_there(before[d.id], now_ms)
                    &&& d == with_mark(before[d.id], config@)
                },
            forall|k: int| 0 <= k < kept.len() ==> id_among(views, i as int, (#[trigger] kept[k])@.id),
            forall|j: int|
                0 <= j < i && still_there(#[trigger] views[j], now_ms) ==> has_id::<
                    DeviceSnapshot,
                >(record_views(kept@), views[j].id),
    {
        let ghost old_kept = record_views(kept@);
        assert(views[i as int] == all[i as int]@);
        if is_still_there(&all[i], now_ms) {
            let mut d = all[i].clone();
            d.is_trusted = config.is_trusted(&d.id);
            let ghost v = d@;
            kept.push(d);
            let ghost new_kept = record_views(kept@);
            proof {
                assert(new_kept =~= old_kept.push(v));
                assert forall|a: int, b: int| 0 <= a < b < new_kept.len() implies (
                #[trigger] new_kept[a]).id != (#[trigger] new_kept[b]).id by {
                    if b < old_kept.len() {
                        assert(old_kept[a].id != old_kept[b].id);
                    } else {
                        assert(kept[a]@ == new_kept[a]);
                        assert(id_among(views, i as int, kept[a]@.id));
                        let j = choose|j: int|
                            0 <= j < i && (#[trigger] views[j]).id == kept[a]@.id;
                        assert(views[j].id != views[i as int].id);
                    }
                }
                assert forall|k: int| 0 <= k < kept.len() implies id_among(
                    views,
                    i + 1,
                    (#[trigger] kept[k])@.id,
                ) by {
                    if k == old_kept.len() {
                        assert(views[i as int].id == kept[k]@.id);
                    } else {
                        assert(id_among(views, i as int, kept[k]@.id));
                    }
                }
                assert forall|j: int| 0 <= j < i + 1 && still_there(
                    #[trigger] views[j],
                    now_ms,
                ) implies has_id::<DeviceSnapshot>(new_kept, views[j].id) by {
                    if j < i {
                        let k = choose|k: int|
                            0 <= k < old_kept.len() && (#[trigger] old_kept[k]).id == views[j].id;
                        assert(new_kept[k].id == views[j].id);
                    } else {
                        assert(new_kept[old_kept.len() as int].id == views[j].id);
                    }
                }
            }
        } else {
            assert forall|k: int| 0 <= k < kept.len() implies id_among(
                views,
                i + 1,
                (#[trigger] kept[k])@.id,
            ) by {
                assert(id_among(views, i as int, kept[k]@.id));
            }
        }
    }
    let listed = list_devices(&kept);
    let ghost kv = record_views(kept@);
    assert(kv.len() == kept.len());
    *devices = Registry::from_items(kept);
    proof {
        let m = refreshed(before, config@, now_ms);
        lemma_entered_lists::<DeviceSnapshot>(kv);
        assert(lists::<DeviceSnapshot>(kv, m)) by {
            assert forall|k: int| 0 <= k < kv.len() implies m.contains_key(
                (#[trigger] kv[k]).id,
            ) && m[kv[k].id] == kv[k] by {
                assert(kv[k] == kept[k]@);
            }
            assert forall|x: Seq<char>| #[trigger] m.contains_key(x) implies has_id::<
                DeviceSnapshot,
            >(kv, x) by {
                assert(has_id::<DeviceSnapshot>(views, x));
                let j = choose|j: int| 0 <= j < views.len() && (#[trigger] views[j]).id == x;
                assert(before[views[j].id] == views[j]);
                assert(has_id::<DeviceSnapshot>(kv, views[j].id));
            }
        }
        lemma_lists_unique::<DeviceSnapshot>(kv, m, entered::<DeviceSnapshot>(kv));
        lemma_listed(kv, record_views(listed@), m);
    }
    listed
}

/// A device is still there if it was added by hand or was heard of in the last
/// twenty seconds; a clock that went back does not matter.
pub proof fn lemma_still_there(d: DeviceView, now_ms: u128)
    ensures
        d.is_manual ==> still_there(d, now_ms),
        !d.is_manual ==> still_there(d, now_ms) == (now_ms <= d.last_seen_ms + 20_000),
{
}

/// Refreshing forgets the devices that are no longer there, and changes nothing
/// of the others but the mark of trust, which follows the settings.
pub proof fn lemma_refreshed(
    devices: Map<Seq<char>, DeviceView>,
    config: ConfigView,
    now_ms: u128,
    k: Seq<char>,
)
    ensures
        ({
            let after = refreshed(devices, config, now_ms);
            &&& after.contains_key(k) ==> devices.contains_key(k)
            &&& devices.contains_key(k) ==> {
                let d = devices[k];
                &&& after.contains_key(k) == (d.is_manual || now_ms <= d.last_seen_ms + 20_000)
                &&& after.contains_key(k) ==> after[k] == (DeviceView {
                    is_trusted: config.trusted_device_ids.contains(d.id),
                    ..d
                })
            }
        }),
{
}

/// In the order of the list devices that were found come before those that were
/// added by hand, and among each no name comes after one that is behind it in
/// lowercase.
pub proof fn lemma_listing_order(s: Seq<DeviceView>, i: int, j: int)
    requires
        in_listing_order(s),
        0 <= i < j < s.len(),
    ensures
        s[i].is_manual ==> s[j].is_manual,
        s[i].is_manual == s[j].is_manual ==> !text_less(
            lowercase(s[j].name),
            lowercase(s[i].name),
        ),
{
}

/// Listing devices by given names lists each once: those that were found before
/// those that were added by hand, among each by the given names, and those of
/// the same name in the order in which they were. The result says from which
/// position each comes.
pub proof fn lemma_listed_by(
    devices: Seq<DeviceView>,
    lowered: Seq<Seq<char>>,
    output: Seq<DeviceView>,
) -> (order: Seq<usize>)
    requires
        listed_by(devices, lowered, output),
        lowered.len() == devices.len(),
    ensures
        output.len() == devices.len(),
        order.len() == devices.len(),
        order.no_duplicates(),
        forall|i: int|
            0 <= i < output.len() ==> #[trigger] order[i] < devices.len() && output[i]
                == devices[order[i] as int],
        forall|i: int, j: int|
            0 <= i < j < output.len() ==> {
                let a = #[trigger] order[i] as int;
                let b = #[trigger] order[j] as int;
                &&& devices[a].is_manual ==> devices[b].is_manual
                &&& devices[a].is_manual == devices[b].is_manual ==> !text_less(
                    lowered[b],
                    lowered[a],
                )
                &&& devices[a].is_manual == devices[b].is_manual && lowered[a] == lowered[b] ==> a
                    < b
            },
{
    let keys = listing_keys(devices, lowered);
    let order = choose|order: Seq<usize>| #[trigger]
        stable_order(keys, by_listing(), order) && output == arranged(devices, order);
    assert forall|v: (bool, Seq<char>)| !#[trigger] by_listing()(v, v) by {
        ListingKey::lemma_irreflexive(v);
    }
    lemma_stable_order_lists_all(keys, by_listing(), order);
    assert forall|i: int| 0 <= i < output.len() implies #[trigger] order[i] < devices.len()
        && output[i] == devices[order[i] as int] by {}
    assert forall|i: int, j: int| 0 <= i < j < output.len() implies {
        let a = #[trigger] order[i] as int;
        let b = #[trigger] order[j] as int;
        &&& devices[a].is_manual ==> devices[b].is_manual
        &&& devices[a].is_manual == devices[b].is_manual ==> !text_less(lowered[b], lowered[a])
        &&& devices[a].is_manual == devices[b].is_manual && lowered[a] == lowered[b] ==> a < b
    } by {
        let a = order[i] as int;
        let b = order[j] as int;
        assert(crate::order::precedes(keys, by_listing(), a, b));
        assert(keys[a] == (devices[a].is_manual, lowered[a]));
        assert(keys[b] == (devices[b].is_manual, lowered[b]));
        if by_listing()(keys[b], keys[a]) && by_listing()(keys[a], keys[b]) {
            ListingKey::lemma_transitive(keys[a], keys[b], keys[a]);
            ListingKey::lemma_irreflexive(keys[a]);
        }
        lemma_text_less_irreflexive(lowered[a]);
    }
    order
}

/// Devices are listed by their names in lowercase.
pub proof fn lemma_lowered_names(devices: Seq<DeviceView>)
    ensures
        lowered_names(devices).len() == devices.len(),
        forall|i: int|
            0 <= i < devices.len() ==> #[trigger] lowered_names(devices)[i] == lowercase(
                devices[i].name,
            ),
{
}

} // verus!
