//! The mod cache: the authoritative in-memory id → mod map over the disk
//! store. Reads are served from the map; writes go through to the store
//! and then update the map; every mutation leaves exactly one detected
//! change in the outbox, which the surrounding task drains onto the
//! change bus. The periodic local scan reconciles the map with the
//! store's directory listing.
use crate::data::{DetectedChange, DetectedChangeView, Mod, ModView};
use crate::store::{
    install_local_spec, install_remote_spec, latest_result_view, list_spec, mod_result_view,
    mods_result_view, remove_spec, unit_result_view, update_latest_spec, update_local_spec,
    update_remote_spec, DiskMods, Error, ErrorView, StoreView,
};
use vstd::prelude::*;

verus! {

/// The cadence of the local scan when none is configured.
pub const DEFAULT_LOCAL_SCAN_INTERVAL_MS: u64 = 15_000;

/// The cadence of the remote catalog poll when none is configured.
pub const DEFAULT_API_POLL_INTERVAL_MS: u64 = 3_600_000;

/// The bound on the random delay between two catalog fetches.
pub const DEFAULT_API_STEP_MAX_DELAY_MS: u64 = 10_000;

/// Whether the map holds an entry for an id.
pub open spec fn cache_has(mods: Seq<ModView>, id: Seq<char>) -> bool {
    exists|i: int| 0 <= i < mods.len() && (#[trigger] mods[i]).id == id
}

pub open spec fn cache_index(mods: Seq<ModView>, id: Seq<char>) -> int {
    choose|i: int| 0 <= i < mods.len() && (#[trigger] mods[i]).id == id
}

/// The entry the map holds for an id.
pub open spec fn cache_at(mods: Seq<ModView>, id: Seq<char>) -> ModView {
    mods[cache_index(mods, id)]
}

/// One entry per id.
pub open spec fn cache_unique(mods: Seq<ModView>) -> bool {
    forall|i: int, j: int|
        0 <= i < j < mods.len() ==> (#[trigger] mods[i]).id != (#[trigger] mods[j]).id
}

/// An index that carries an id pins `cache_index` down.
pub proof fn lemma_cache_index(mods: Seq<ModView>, i: int)
    requires
        cache_unique(mods),
        0 <= i < mods.len(),
    ensures
        cache_has(mods, mods[i].id),
        cache_index(mods, mods[i].id) == i,
        cache_at(mods, mods[i].id) == mods[i],
{
    let id = mods[i].id;
    assert(cache_has(mods, id));
    let j = cache_index(mods, id);
    if i != j {
        assert(mods[i].id != mods[j].id);
    }
}

/// The map with one entry written: replacing the entry under the same
/// id, or appended when there is none.
pub open spec fn cache_upsert(mods: Seq<ModView>, m: ModView) -> Seq<ModView> {
    if cache_has(mods, m.id) {
        mods.update(cache_index(mods, m.id), m)
    } else {
        mods.push(m)
    }
}

pub proof fn lemma_cache_upsert(mods: Seq<ModView>, m: ModView)
    requires
        cache_unique(mods),
    ensures
        cache_unique(cache_upsert(mods, m)),
        cache_has(cache_upsert(mods, m), m.id),
        cache_at(cache_upsert(mods, m), m.id) == m,
{
    let r = cache_upsert(mods, m);
    if cache_has(mods, m.id) {
        let i = cache_index(mods, m.id);
        assert(0 <= i < mods.len() && mods[i].id == m.id);
        assert forall|a: int, b: int| 0 <= a < b < r.len() implies (#[trigger] r[a]).id != (
        #[trigger] r[b]).id by {
            assert(mods[a].id != mods[b].id);
        }
        lemma_cache_index(r, i);
    } else {
        assert forall|a: int, b: int| 0 <= a < b < r.len() implies (#[trigger] r[a]).id != (
        #[trigger] r[b]).id by {
            if b == r.len() - 1 {
                assert(r[a] == mods[a]);
                assert(cache_has(mods, mods[a].id));
            }
        }
        assert(r[r.len() - 1] == m);
        lemma_cache_index(r, r.len() - 1);
    }
}

/// The map with the entry for an id removed, when there is one.
pub open spec fn cache_drop(mods: Seq<ModView>, id: Seq<char>) -> Seq<ModView> {
    if cache_has(mods, id) {
        mods.remove(cache_index(mods, id))
    } else {
        mods
    }
}

pub proof fn lemma_cache_drop(mods: Seq<ModView>, id: Seq<char>)
    requires
        cache_unique(mods),
    ensures
        cache_unique(cache_drop(mods, id)),
        !cache_has(cache_drop(mods, id), id),
{
    let r = cache_drop(mods, id);
    if cache_has(mods, id) {
        let pi = cache_index(mods, id);
        mods.remove_ensures(pi);
        assert forall|a: int, b: int| 0 <= a < b < r.len() implies (#[trigger] r[a]).id != (
        #[trigger] r[b]).id by {
            mods.remove_ensures(pi);
        }
        assert forall|k: int| 0 <= k < r.len() implies (#[trigger] r[k]).id != id by {
            if k < pi {
                assert(r[k] == mods[k]);
                assert(mods[k].id != mods[pi].id);
            } else {
                assert(r[k] == mods[k + 1]);
                assert(mods[pi].id != mods[k + 1].id);
            }
        }
    }
}

/// The `Removed` events of one scan: one per map entry whose id is no
/// longer on disk, in map order.
pub open spec fn removed_events(mods: Seq<ModView>, disk: Seq<ModView>) -> Seq<DetectedChangeView>
    decreases mods.len(),
{
    if mods.len() == 0 {
        Seq::empty()
    } else {
        removed_events(mods.drop_last(), disk) + if !cache_has(disk, mods.last().id) {
            seq![DetectedChangeView::Removed { id: mods.last().id }]
        } else {
            Seq::empty()
        }
    }
}

/// The `Added` and `Updated` events of one scan: one per disk mod that
/// is missing from the map or differs from it, in disk order; none for
/// an unchanged mod.
pub open spec fn diff_events(mods: Seq<ModView>, disk: Seq<ModView>) -> Seq<DetectedChangeView>
    decreases disk.len(),
{
    if disk.len() == 0 {
        Seq::empty()
    } else {
        diff_events(mods, disk.drop_last()) + if !cache_has(mods, disk.last().id) {
            seq![DetectedChangeView::Added { installed: disk.last() }]
        } else if cache_at(mods, disk.last().id) != disk.last() {
            seq![DetectedChangeView::Updated { installed: disk.last() }]
        } else {
            Seq::empty()
        }
    }
}

/// Everything one scan reports: removals first, in map order, then
/// additions and updates in disk order.
pub open spec fn scan_events(mods: Seq<ModView>, disk: Seq<ModView>) -> Seq<DetectedChangeView> {
    removed_events(mods, disk) + diff_events(mods, disk)
}

/// The map entries that survive one scan — those whose id is still on
/// disk — each replaced by the disk's current value, in map order.
pub open spec fn survivors(mods: Seq<ModView>, disk: Seq<ModView>) -> Seq<ModView>
    decreases mods.len(),
{
    if mods.len() == 0 {
        Seq::empty()
    } else {
        survivors(mods.drop_last(), disk) + if cache_has(disk, mods.last().id) {
            seq![cache_at(disk, mods.last().id)]
        } else {
            Seq::empty()
        }
    }
}

/// The disk mods a scan adds to the map: those absent from it, in disk
/// order.
pub open spec fn added_mods(mods: Seq<ModView>, disk: Seq<ModView>) -> Seq<ModView>
    decreases disk.len(),
{
    if disk.len() == 0 {
        Seq::empty()
    } else {
        added_mods(mods, disk.drop_last()) + if !cache_has(mods, disk.last().id) {
            seq![disk.last()]
        } else {
            Seq::empty()
        }
    }
}

/// What the map holds after one scan.
pub open spec fn scan_result(mods: Seq<ModView>, disk: Seq<ModView>) -> Seq<ModView> {
    survivors(mods, disk) + added_mods(mods, disk)
}

/// One step of the removal walk.
proof fn lemma_removed_events_step(mods: Seq<ModView>, disk: Seq<ModView>, i: int)
    requires
        0 <= i < mods.len(),
    ensures
        removed_events(mods.take(i + 1), disk) == removed_events(mods.take(i), disk) + (
        if !cache_has(disk, mods[i].id) {
            seq![DetectedChangeView::Removed { id: mods[i].id }]
        } else {
            Seq::<DetectedChangeView>::empty()
        }),
{
    assert(mods.take(i + 1).drop_last() =~= mods.take(i));
    assert(mods.take(i + 1).last() == mods[i]);
}

/// One step of the diff walk.
proof fn lemma_diff_events_step(mods: Seq<ModView>, disk: Seq<ModView>, j: int)
    requires
        0 <= j < disk.len(),
    ensures
        diff_events(mods, disk.take(j + 1)) == diff_events(mods, disk.take(j)) + (
        if !cache_has(mods, disk[j].id) {
            seq![DetectedChangeView::Added { installed: disk[j] }]
        } else if cache_at(mods, disk[j].id) != disk[j] {
            seq![DetectedChangeView::Updated { installed: disk[j] }]
        } else {
            Seq::<DetectedChangeView>::empty()
        }),
{
    assert(disk.take(j + 1).drop_last() =~= disk.take(j));
    assert(disk.take(j + 1).last() == disk[j]);
}

/// One step of the survivor walk.
proof fn lemma_survivors_step(mods: Seq<ModView>, disk: Seq<ModView>, i: int)
    requires
        0 <= i < mods.len(),
    ensures
        survivors(mods.take(i + 1), disk) == survivors(mods.take(i), disk) + (
        if cache_has(disk, mods[i].id) {
            seq![cache_at(disk, mods[i].id)]
        } else {
            Seq::<ModView>::empty()
        }),
{
    assert(mods.take(i + 1).drop_last() =~= mods.take(i));
    assert(mods.take(i + 1).last() == mods[i]);
}

/// One step of the addition walk.
proof fn lemma_added_mods_step(mods: Seq<ModView>, disk: Seq<ModView>, j: int)
    requires
        0 <= j < disk.len(),
    ensures
        added_mods(mods, disk.take(j + 1)) == added_mods(mods, disk.take(j)) + (
        if !cache_has(mods, disk[j].id) {
            seq![disk[j]]
        } else {
            Seq::<ModView>::empty()
        }),
{
    assert(disk.take(j + 1).drop_last() =~= disk.take(j));
    assert(disk.take(j + 1).last() == disk[j]);
}

/// Every entry a scan leaves in the map is the disk's current value for
/// its id; the surviving entries keep one entry per id.
proof fn lemma_survivors_props(mods: Seq<ModView>, disk: Seq<ModView>)
    requires
        cache_unique(mods),
    ensures
        forall|k: int|
            0 <= k < survivors(mods, disk).len() ==> {
                let e = #[trigger] survivors(mods, disk)[k];
                cache_has(disk, e.id) && e == cache_at(disk, e.id) && cache_has(mods, e.id)
            },
        forall|id: Seq<char>|
            cache_has(mods, id) && cache_has(disk, id) ==> cache_has(
                #[trigger] survivors(mods, disk),
                id,
            ),
        cache_unique(survivors(mods, disk)),
    decreases mods.len(),
{
    if mods.len() > 0 {
        let dl = mods.drop_last();
        assert(forall|i: int| 0 <= i < dl.len() ==> dl[i] == mods[i]);
        lemma_survivors_props(dl, disk);
        let sv = survivors(mods, disk);
        let prev = survivors(dl, disk);
        let last = mods.last();
        assert forall|k: int| 0 <= k < sv.len() implies {
            let e = #[trigger] sv[k];
            cache_has(disk, e.id) && e == cache_at(disk, e.id) && cache_has(mods, e.id)
        } by {
            if k < prev.len() {
                assert(sv[k] == prev[k]);
                assert(cache_has(dl, prev[k].id));
                let i = cache_index(dl, prev[k].id);
                assert(mods[i].id == prev[k].id);
            } else {
                assert(cache_has(disk, last.id));
                assert(sv[k] == cache_at(disk, last.id));
                assert(cache_at(disk, last.id).id == last.id);
                assert(mods[mods.len() - 1].id == last.id);
            }
        }
        assert forall|id: Seq<char>| cache_has(mods, id) && cache_has(disk, id) implies cache_has(
            #[trigger] survivors(mods, disk),
            id,
        ) by {
            let i = cache_index(mods, id);
            if i < mods.len() - 1 {
                assert(dl[i].id == id);
                assert(cache_has(dl, id));
                let k = cache_index(prev, id);
                assert(sv[k].id == id);
            } else {
                assert(last.id == id);
                assert(sv[sv.len() - 1] == cache_at(disk, id));
                assert(sv[sv.len() - 1].id == id);
            }
        }
        assert forall|a: int, b: int| 0 <= a < b < sv.len() implies (#[trigger] sv[a]).id != (
        #[trigger] sv[b]).id by {
            if b < prev.len() {
                assert(sv[a] == prev[a] && sv[b] == prev[b]);
            } else {
                assert(sv[b].id == last.id);
                assert(sv[a] == prev[a]);
                assert(cache_has(dl, prev[a].id));
                let i = cache_index(dl, prev[a].id);
                assert(mods[i].id != mods[mods.len() - 1].id);
            }
        }
    }
}

/// Every entry a scan adds to the map is a disk value whose id the map
/// did not hold; the added entries keep one entry per id.
proof fn lemma_added_props(mods: Seq<ModView>, disk: Seq<ModView>)
    requires
        cache_unique(disk),
    ensures
        forall|k: int|
            0 <= k < added_mods(mods, disk).len() ==> {
                let e = #[trigger] added_mods(mods, disk)[k];
                cache_has(disk, e.id) && e == cache_at(disk, e.id) && !cache_has(mods, e.id)
            },
        forall|id: Seq<char>|
            !cache_has(mods, id) && cache_has(disk, id) ==> cache_has(
                #[trigger] added_mods(mods, disk),
                id,
            ),
        cache_unique(added_mods(mods, disk)),
    decreases disk.len(),
{
    if disk.len() > 0 {
        let dl = disk.drop_last();
        assert(forall|i: int| 0 <= i < dl.len() ==> dl[i] == disk[i]);
        lemma_added_props(mods, dl);
        let av = added_mods(mods, disk);
        let prev = added_mods(mods, dl);
        let last = disk.last();
        lemma_cache_index(disk, disk.len() - 1);
        assert forall|k: int| 0 <= k < av.len() implies {
            let e = #[trigger] av[k];
            cache_has(disk, e.id) && e == cache_at(disk, e.id) && !cache_has(mods, e.id)
        } by {
            if k < prev.len() {
                assert(av[k] == prev[k]);
                assert(cache_has(dl, prev[k].id));
                let i = cache_index(dl, prev[k].id);
                assert(disk[i].id == prev[k].id);
                lemma_cache_index(disk, i);
                assert(cache_at(dl, prev[k].id) == dl[cache_index(dl, prev[k].id)]);
                assert(cache_at(disk, prev[k].id) == disk[i]);
                assert(cache_at(dl, prev[k].id) == cache_at(disk, prev[k].id));
            } else {
                assert(av[k] == last);
                assert(cache_at(disk, last.id) == last);
            }
        }
        assert forall|id: Seq<char>| !cache_has(mods, id) && cache_has(disk, id) implies cache_has(
            #[trigger] added_mods(mods, disk),
            id,
        ) by {
            let i = cache_index(disk, id);
            if i < disk.len() - 1 {
                assert(dl[i].id == id);
                assert(cache_has(dl, id));
                let k = cache_index(prev, id);
                assert(av[k].id == id);
            } else {
                assert(last.id == id);
                assert(av[av.len() - 1].id == id);
            }
        }
        assert forall|a: int, b: int| 0 <= a < b < av.len() implies (#[trigger] av[a]).id != (
        #[trigger] av[b]).id by {
            if b < prev.len() {
                assert(av[a] == prev[a] && av[b] == prev[b]);
            } else {
                assert(av[b] == last);
                assert(av[a] == prev[a]);
                assert(cache_has(dl, prev[a].id));
                let i = cache_index(dl, prev[a].id);
                assert(disk[i].id != disk[disk.len() - 1].id);
            }
        }
    }
}

/// Scan convergence: after one scan the map holds exactly the mods the
/// disk listing shows — same ids, same values — whatever it held
/// before.
pub proof fn lemma_scan_convergence(mods: Seq<ModView>, disk: Seq<ModView>)
    requires
        cache_unique(mods),
        cache_unique(disk),
    ensures
        forall|id: Seq<char>|
            #[trigger] cache_has(scan_result(mods, disk), id) <==> cache_has(disk, id),
        forall|id: Seq<char>|
            cache_has(disk, id) ==> #[trigger] cache_at(scan_result(mods, disk), id) == cache_at(
                disk,
                id,
            ),
        cache_unique(scan_result(mods, disk)),
{
    lemma_survivors_props(mods, disk);
    lemma_added_props(mods, disk);
    let sv = survivors(mods, disk);
    let av = added_mods(mods, disk);
    let r = scan_result(mods, disk);
    assert forall|a: int, b: int| 0 <= a < b < r.len() implies (#[trigger] r[a]).id != (
    #[trigger] r[b]).id by {
        if b < sv.len() {
            assert(r[a] == sv[a] && r[b] == sv[b]);
        } else if a >= sv.len() {
            assert(r[a] == av[a - sv.len()] && r[b] == av[b - sv.len()]);
        } else {
            assert(r[a] == sv[a] && r[b] == av[b - sv.len()]);
            assert(cache_has(mods, sv[a].id));
            assert(!cache_has(mods, av[b - sv.len()].id));
        }
    }
    assert forall|id: Seq<char>| #[trigger] cache_has(r, id) implies cache_has(disk, id) by {
        let k = cache_index(r, id);
        if k < sv.len() {
            assert(r[k] == sv[k]);
        } else {
            assert(r[k] == av[k - sv.len()]);
        }
    }
    assert forall|id: Seq<char>| cache_has(disk, id) implies cache_has(r, id) by {
        if cache_has(mods, id) {
            let k = cache_index(sv, id);
            assert(sv[k].id == id);
            assert(r[k] == sv[k]);
        } else {
            let k = cache_index(av, id);
            assert(av[k].id == id);
            assert(r[sv.len() + k] == av[k]);
        }
    }
    assert forall|id: Seq<char>| cache_has(disk, id) implies #[trigger] cache_at(r, id)
        == cache_at(disk, id) by {
        let k = cache_index(r, id);
        assert(r[k].id == id);
        if k < sv.len() {
            assert(r[k] == sv[k]);
            assert(sv[k] == cache_at(disk, sv[k].id));
        } else {
            assert(r[k] == av[k - sv.len()]);
            assert(av[k - sv.len()] == cache_at(disk, av[k - sv.len()].id));
        }
    }
}

/// The id an event speaks about.
pub open spec fn event_id(e: DetectedChangeView) -> Seq<char> {
    match e {
        DetectedChangeView::Added { installed } => installed.id,
        DetectedChangeView::Removed { id } => id,
        DetectedChangeView::Updated { installed } => installed.id,
        DetectedChangeView::NewVersion { id } => id,
    }
}

proof fn lemma_removed_events_props(mods: Seq<ModView>, disk: Seq<ModView>)
    requires
        cache_unique(mods),
    ensures
        forall|k: int|
            0 <= k < removed_events(mods, disk).len() ==> {
                let e = #[trigger] removed_events(mods, disk)[k];
                e == (DetectedChangeView::Removed { id: event_id(e) }) && cache_has(
                    mods,
                    event_id(e),
                ) && !cache_has(disk, event_id(e))
            },
        forall|id: Seq<char>|
            cache_has(mods, id) && !cache_has(disk, id) ==> exists|k: int|
                0 <= k < removed_events(mods, disk).len() && event_id(
                    #[trigger] removed_events(mods, disk)[k],
                ) == id,
        forall|a: int, b: int|
            0 <= a < b < removed_events(mods, disk).len() ==> event_id(
                #[trigger] removed_events(mods, disk)[a],
            ) != event_id(#[trigger] removed_events(mods, disk)[b]),
    decreases mods.len(),
{
    if mods.len() > 0 {
        let dl = mods.drop_last();
        assert(forall|i: int| 0 <= i < dl.len() ==> dl[i] == mods[i]);
        lemma_removed_events_props(dl, disk);
        let rv = removed_events(mods, disk);
        let prev = removed_events(dl, disk);
        let last = mods.last();
        assert forall|k: int| 0 <= k < rv.len() implies {
            let e = #[trigger] rv[k];
            e == (DetectedChangeView::Removed { id: event_id(e) }) && cache_has(mods, event_id(e))
                && !cache_has(disk, event_id(e))
        } by {
            if k < prev.len() {
                assert(rv[k] == prev[k]);
                assert(cache_has(dl, event_id(prev[k])));
                let i = cache_index(dl, event_id(prev[k]));
                assert(mods[i].id == event_id(prev[k]));
            } else {
                assert(rv[k] == (DetectedChangeView::Removed { id: last.id }));
                assert(mods[mods.len() - 1].id == last.id);
            }
        }
        assert forall|id: Seq<char>| cache_has(mods, id) && !cache_has(disk, id) implies exists|
            k: int,
        |
            0 <= k < rv.len() && event_id(#[trigger] rv[k]) == id by {
            let i = cache_index(mods, id);
            if i < mods.len() - 1 {
                assert(dl[i].id == id);
                assert(cache_has(dl, id));
                let k = choose|k: int| 0 <= k < prev.len() && event_id(prev[k]) == id;
                assert(event_id(rv[k]) == id);
            } else {
                assert(last.id == id);
                assert(event_id(rv[rv.len() - 1]) == id);
            }
        }
        assert forall|a: int, b: int| 0 <= a < b < rv.len() implies event_id(#[trigger] rv[a])
            != event_id(#[trigger] rv[b]) by {
            if b < prev.len() {
                assert(rv[a] == prev[a] && rv[b] == prev[b]);
            } else {
                assert(event_id(rv[b]) == last.id);
                assert(rv[a] == prev[a]);
                assert(cache_has(dl, event_id(prev[a])));
                let i = cache_index(dl, event_id(prev[a]));
                assert(mods[i].id != mods[mods.len() - 1].id);
            }
        }
    }
}

proof fn lemma_diff_events_props(mods: Seq<ModView>, disk: Seq<ModView>)
    requires
        cache_unique(disk),
    ensures
        forall|k: int|
            0 <= k < diff_events(mods, disk).len() ==> {
                let e = #[trigger] diff_events(mods, disk)[k];
                cache_has(disk, event_id(e)) && (e matches DetectedChangeView::Added {
                    installed,
                } ==> (installed == cache_at(disk, installed.id) && !cache_has(
                    mods,
                    installed.id,
                ))) && (e matches DetectedChangeView::Updated { installed } ==> (installed
                    == cache_at(disk, installed.id) && cache_has(mods, installed.id) && cache_at(
                    mods,
                    installed.id,
                ) != installed)) && (e is Added || e is Updated)
            },
        forall|id: Seq<char>|
            cache_has(disk, id) && (!cache_has(mods, id) || cache_at(mods, id) != cache_at(
                disk,
                id,
            )) ==> exists|k: int|
                0 <= k < diff_events(mods, disk).len() && event_id(
                    #[trigger] diff_events(mods, disk)[k],
                ) == id,
        forall|a: int, b: int|
            0 <= a < b < diff_events(mods, disk).len() ==> event_id(
                #[trigger] diff_events(mods, disk)[a],
            ) != event_id(#[trigger] diff_events(mods, disk)[b]),
    decreases disk.len(),
{
    if disk.len() > 0 {
        let dl = disk.drop_last();
        assert(forall|i: int| 0 <= i < dl.len() ==> dl[i] == disk[i]);
        lemma_diff_events_props(mods, dl);
        let dv = diff_events(mods, disk);
        let prev = diff_events(mods, dl);
        let last = disk.last();
        lemma_cache_index(disk, disk.len() - 1);
        assert forall|k: int| 0 <= k < prev.len() implies {
            let e = #[trigger] prev[k];
            cache_has(dl, event_id(e)) ==> (cache_has(disk, event_id(e)) && cache_at(
                dl,
                event_id(e),
            ) == cache_at(disk, event_id(e)))
        } by {
            let e = prev[k];
            if cache_has(dl, event_id(e)) {
                let i = cache_index(dl, event_id(e));
                assert(disk[i].id == event_id(e));
                lemma_cache_index(disk, i);
            }
        }
        assert forall|k: int| 0 <= k < dv.len() implies {
            let e = #[trigger] dv[k];
            cache_has(disk, event_id(e)) && (e matches DetectedChangeView::Added {
                installed,
            } ==> (installed == cache_at(disk, installed.id) && !cache_has(mods, installed.id)))
                && (e matches DetectedChangeView::Updated { installed } ==> (installed == cache_at(
                disk,
                installed.id,
            ) && cache_has(mods, installed.id) && cache_at(mods, installed.id) != installed)) && (e
                is Added || e is Updated)
        } by {
            if k < prev.len() {
                assert(dv[k] == prev[k]);
            } else {
                assert(cache_at(disk, last.id) == last);
            }
        }
        assert forall|id: Seq<char>|
            cache_has(disk, id) && (!cache_has(mods, id) || cache_at(mods, id) != cache_at(
                disk,
                id,
            )) implies exists|k: int|
            0 <= k < dv.len() && event_id(#[trigger] dv[k]) == id by {
            let i = cache_index(disk, id);
            if i < disk.len() - 1 {
                assert(dl[i].id == id);
                assert(cache_has(dl, id));
                lemma_cache_index(disk, i);
                assert(cache_at(dl, id) == dl[cache_index(dl, id)]);
                assert(cache_at(disk, id) == disk[i]);
                let k = choose|k: int| 0 <= k < prev.len() && event_id(prev[k]) == id;
                assert(event_id(dv[k]) == id);
            } else {
                assert(last.id == id);
                assert(event_id(dv[dv.len() - 1]) == id);
            }
        }
        assert forall|a: int, b: int| 0 <= a < b < dv.len() implies event_id(#[trigger] dv[a])
            != event_id(#[trigger] dv[b]) by {
            if b < prev.len() {
                assert(dv[a] == prev[a] && dv[b] == prev[b]);
            } else {
                assert(event_id(dv[b]) == last.id);
                assert(dv[a] == prev[a]);
                assert(cache_has(dl, event_id(prev[a])));
                let i = cache_index(dl, event_id(prev[a]));
                assert(disk[i].id != disk[disk.len() - 1].id);
            }
        }
    }
}

/// Change faithfulness of the scan: there is exactly one event per
/// mutation — a `Removed` for each id that left the disk, an `Added`
/// for each disk mod the map lacked, an `Updated` for each one whose
/// value changed — and no event at all for an unchanged mod, nor two
/// events about one id.
pub proof fn lemma_scan_faithful(mods: Seq<ModView>, disk: Seq<ModView>)
    requires
        cache_unique(mods),
        cache_unique(disk),
    ensures
        forall|id: Seq<char>|
            (exists|k: int|
                0 <= k < scan_events(mods, disk).len() && #[trigger] scan_events(mods, disk)[k]
                    == (DetectedChangeView::Removed { id })) <==> (cache_has(mods, id)
                && !cache_has(disk, id)),
        forall|k: int|
            0 <= k < scan_events(mods, disk).len() ==> (((#[trigger] scan_events(mods, disk)[k])
                is Added || scan_events(mods, disk)[k] is Updated) ==> cache_has(
                disk,
                event_id(scan_events(mods, disk)[k]),
            )),
        forall|id: Seq<char>|
            cache_has(disk, id) && cache_has(mods, id) && cache_at(mods, id) == cache_at(disk, id)
                ==> !(exists|k: int|
                0 <= k < scan_events(mods, disk).len() && event_id(
                    #[trigger] scan_events(mods, disk)[k],
                ) == id),
        forall|a: int, b: int|
            0 <= a < b < scan_events(mods, disk).len() ==> event_id(
                #[trigger] scan_events(mods, disk)[a],
            ) != event_id(#[trigger] scan_events(mods, disk)[b]),
{
    lemma_removed_events_props(mods, disk);
    lemma_diff_events_props(mods, disk);
    let rv = removed_events(mods, disk);
    let dv = diff_events(mods, disk);
    let ev = scan_events(mods, disk);
    assert(forall|k: int| 0 <= k < rv.len() ==> ev[k] == rv[k]);
    assert(forall|k: int| 0 <= k < dv.len() ==> ev[rv.len() + k] == dv[k]);
    assert forall|id: Seq<char>|
        (exists|k: int|
            0 <= k < ev.len() && #[trigger] ev[k] == (DetectedChangeView::Removed {
                id,
            })) implies (cache_has(mods, id) && !cache_has(disk, id)) by {
        let k = choose|k: int|
            0 <= k < ev.len() && ev[k] == (DetectedChangeView::Removed { id });
        if k < rv.len() {
            assert(ev[k] == rv[k]);
        } else {
            assert(ev[k] == dv[k - rv.len()]);
            assert(dv[k - rv.len()] is Added || dv[k - rv.len()] is Updated);
        }
    }
    assert forall|id: Seq<char>| (cache_has(mods, id) && !cache_has(disk, id)) implies (exists|
        k: int,
    |
        0 <= k < ev.len() && #[trigger] ev[k] == (DetectedChangeView::Removed { id })) by {
        let k = choose|k: int| 0 <= k < rv.len() && event_id(rv[k]) == id;
        assert(rv[k] == (DetectedChangeView::Removed { id: event_id(rv[k]) }));
        assert(ev[k] == (DetectedChangeView::Removed { id }));
    }
    assert forall|id: Seq<char>|
        cache_has(disk, id) && cache_has(mods, id) && cache_at(mods, id) == cache_at(
            disk,
            id,
        ) implies !(exists|k: int|
        0 <= k < ev.len() && event_id(#[trigger] ev[k]) == id) by {
        assert forall|k: int| 0 <= k < ev.len() implies event_id(ev[k]) != id by {
            if k < rv.len() {
                assert(ev[k] == rv[k]);
                assert(!cache_has(disk, event_id(rv[k])));
            } else {
                let e = dv[k - rv.len()];
                assert(ev[k] == e);
                if event_id(e) == id {
                    assert(e is Added || e is Updated);
                }
            }
        }
    }
    assert forall|a: int, b: int| 0 <= a < b < ev.len() implies event_id(#[trigger] ev[a])
        != event_id(#[trigger] ev[b]) by {
        if b < rv.len() {
            assert(ev[a] == rv[a] && ev[b] == rv[b]);
        } else if a >= rv.len() {
            assert(ev[a] == dv[a - rv.len()] && ev[b] == dv[b - rv.len()]);
        } else {
            assert(ev[a] == rv[a] && ev[b] == dv[b - rv.len()]);
            assert(!cache_has(disk, event_id(rv[a])));
            assert(cache_has(disk, event_id(dv[b - rv.len()])));
        }
    }
}

/// Mathematical value of the cache: the map, the store beneath it, the
/// events not yet drained, and whether a remote client is configured.
#[verifier::ext_equal]
pub ghost struct CacheView {
    pub api_configured: bool,
    pub api_poll_interval_ms: u64,
    pub api_step_max_delay_ms: u64,
    pub local_scan_interval_ms: u64,
    pub mods: Seq<ModView>,
    pub store: StoreView,
    pub events: Seq<DetectedChangeView>,
}

/// The in-memory mod cache over a disk store.
pub struct ModCache {
    api_configured: bool,
    api_poll_interval_ms: u64,
    api_step_max_delay_ms: u64,
    cache: Vec<Mod>,
    disk: DiskMods,
    local_scan_interval_ms: u64,
    outbox: Vec<DetectedChange>,
}

impl View for ModCache {
    type V = CacheView;

    closed spec fn view(&self) -> CacheView {
        CacheView {
            api_configured: self.api_configured,
            api_poll_interval_ms: self.api_poll_interval_ms,
            api_step_max_delay_ms: self.api_step_max_delay_ms,
            local_scan_interval_ms: self.local_scan_interval_ms,
            mods: self.cache@.map_values(|m: Mod| m@),
            store: self.disk@,
            events: self.outbox@.map_values(|e: DetectedChange| e@),
        }
    }
}

impl ModCache {
    /// The map holds one entry per id, and the store beneath is well
    /// formed.
    pub open spec fn wf(self) -> bool {
        cache_unique(self@.mods) && self@.store.wf()
    }

    /// A cache over a disk store, with an empty map; `populate` fills
    /// it. The intervals are what the scan and poll loops are driven
    /// with; the cache itself only records them.
    pub fn new(
        api_configured: bool,
        api_poll_interval_ms: u64,
        api_step_max_delay_ms: u64,
        disk: DiskMods,
        local_scan_interval_ms: u64,
    ) -> (r: Self)
        requires
            disk@.wf(),
        ensures
            r@.api_configured == api_configured,
            r@.mods == Seq::<ModView>::empty(),
            r@.store == disk@,
            r@.events == Seq::<DetectedChangeView>::empty(),
            r.wf(),
            r@.api_poll_interval_ms == api_poll_interval_ms,
            r@.api_step_max_delay_ms == api_step_max_delay_ms,
            r@.local_scan_interval_ms == local_scan_interval_ms,
    {
        let r = ModCache {
            api_configured,
            api_poll_interval_ms,
            api_step_max_delay_ms,
            cache: Vec::new(),
            disk,
            local_scan_interval_ms,
            outbox: Vec::new(),
        };
        proof {
            assert(r@.mods =~= Seq::<ModView>::empty());
            assert(r@.events =~= Seq::<DetectedChangeView>::empty());
        }
        r
    }

    /// The cadence the driving loop polls the remote catalog with.
    pub fn api_poll_interval_ms(&self) -> (r: u64)
        ensures
            r == self@.api_poll_interval_ms,
    {
        self.api_poll_interval_ms
    }

    /// The upper bound on the random delay between two catalog fetches.
    pub fn api_step_max_delay_ms(&self) -> (r: u64)
        ensures
            r == self@.api_step_max_delay_ms,
    {
        self.api_step_max_delay_ms
    }

    /// The cadence the driving loop runs the local scan with.
    pub fn local_scan_interval_ms(&self) -> (r: u64)
        ensures
            r == self@.local_scan_interval_ms,
    {
        self.local_scan_interval_ms
    }

    /// Whether a remote client is configured.
    pub fn has_api(&self) -> (r: bool)
        ensures
            r == self@.api_configured,
    {
        self.api_configured
    }

    /// The store beneath the map, for callers that mirror it outward.
    pub fn store_ref(&self) -> (r: &DiskMods)
        ensures
            r@ == self@.store,
    {
        &self.disk
    }

    /// Replaces the store beneath the map with a freshly read one; the
    /// surrounding application calls this when it has re-read the disk,
    /// and the next scan reconciles the map with it.
    pub fn reload_store(&mut self, disk: DiskMods) -> (nothing: ())
        requires
            old(self).wf(),
            disk@.wf(),
        ensures
            final(self)@ == (CacheView { store: disk@, ..old(self)@ }),
            final(self).wf(),
    {
        self.disk = disk;
        proof {
            assert(self@ =~= (CacheView { store: disk@, ..old(self)@ }));
        }
    }

    /// Hands the accumulated detected changes to the driving loop, which
    /// broadcasts them.
    pub fn take_events(&mut self) -> (r: Vec<DetectedChange>)
        ensures
            r@.map_values(|e: DetectedChange| e@) == old(self)@.events,
            final(self)@ == (CacheView { events: Seq::empty(), ..old(self)@ }),
    {
        let mut out: Vec<DetectedChange> = Vec::new();
        core::mem::swap(&mut out, &mut self.outbox);
        proof {
            assert(self@.events =~= Seq::<DetectedChangeView>::empty());
            assert(self@ =~= (CacheView { events: Seq::empty(), ..old(self)@ }));
        }
        out
    }

    fn find_index(&self, id: &str) -> (r: Option<usize>)
        ensures
            match r {
                Some(i) => i < self@.mods.len() && self@.mods[i as int].id == id@,
                None => !cache_has(self@.mods, id@),
            },
    {
        let mut i: usize = 0;
        while i < self.cache.len()
            invariant
                i <= self.cache@.len(),
                forall|k: int| 0 <= k < i ==> (#[trigger] self@.mods[k]).id != id@,
            decreases self.cache@.len() - i,
        {
            if crate::paths::str_eq(self.cache[i].id.as_str(), id) {
                return Some(i);
            }
            i += 1;
        }
        None
    }

    /// Serves one mod from the map.
    pub fn get(&self, id: &str) -> (r: Result<Mod, Error>)
        requires
            self.wf(),
        ensures
            match r {
                Ok(m) => cache_has(self@.mods, id@) && m@ == cache_at(self@.mods, id@),
                Err(e) => !cache_has(self@.mods, id@) && e@ == ErrorView::NotFound(id@),
            },
    {
        match self.find_index(id) {
            None => Err(Error::NotFound(id.to_owned())),
            Some(i) => {
                proof {
                    lemma_cache_index(self@.mods, i as int);
                }
                Ok(self.cache[i].clone_value())
            },
        }
    }

    /// Serves the whole map, in its own order.
    pub fn list(&self) -> (r: Result<Vec<Mod>, Error>)
        ensures
            mods_result_view(r) == Ok::<Seq<ModView>, ErrorView>(self@.mods),
    {
        let mut out: Vec<Mod> = Vec::new();
        let mut i: usize = 0;
        while i < self.cache.len()
            invariant
                i <= self.cache@.len(),
                out@.len() == i,
                forall|k: int| 0 <= k < i ==> (#[trigger] out@[k])@ == self@.mods[k],
            decreases self.cache@.len() - i,
        {
            out.push(self.cache[i].clone_value());
            i += 1;
        }
        proof {
            assert(out@.map_values(|m: Mod| m@) =~= self@.mods);
        }
        Ok(out)
    }

    /// Fills an empty map from the store's listing; a map that already
    /// has entries is left alone.
    pub fn populate_cache(&mut self)
        requires
            old(self).wf(),
        ensures
            final(self).wf(),
            old(self)@.mods.len() > 0 ==> final(self)@ == old(self)@,
            old(self)@.mods.len() == 0 ==> final(self)@ == (CacheView {
                mods: list_spec(old(self)@.store),
                ..old(self)@
            }),
    {
        if self.cache.len() > 0 {
            return ;
        }
        let listed = match self.disk.list() {
            Ok(v) => v,
            Err(_) => {
                return ;
            },
        };
        proof {
            crate::store::lemma_list_spec_unique(self@.store);
        }
        self.cache = listed;
        proof {
            assert(self@ =~= (CacheView { mods: list_spec(old(self)@.store), ..old(self)@ }));
        }
    }
}

fn find_mod_in(v: &Vec<Mod>, id: &str) -> (r: Option<usize>)
    ensures
        match r {
            Some(i) => i < v@.len() && v@.map_values(|m: Mod| m@)[i as int].id == id@,
            None => !cache_has(v@.map_values(|m: Mod| m@), id@),
        },
{
    let ghost mv = v@.map_values(|m: Mod| m@);
    let mut i: usize = 0;
    while i < v.len()
        invariant
            i <= v@.len(),
            mv == v@.map_values(|m: Mod| m@),
            forall|k: int| 0 <= k < i ==> (#[trigger] mv[k]).id != id@,
        decreases v@.len() - i,
    {
        if crate::paths::str_eq(v[i].id.as_str(), id) {
            return Some(i);
        }
        i += 1;
    }
    None
}

impl ModCache {
    /// Reconciles the map with the store's listing: entries whose
    /// directory is gone leave the map with a `Removed` event; disk
    /// mods the map lacks enter it with an `Added` event; a mod whose
    /// value changed is replaced with an `Updated` event; an unchanged
    /// mod produces nothing.
    pub fn local_scan(&mut self)
        requires
            old(self).wf(),
        ensures
            final(self).wf(),
            final(self)@ == (CacheView {
                mods: scan_result(old(self)@.mods, list_spec(old(self)@.store)),
                events: old(self)@.events + scan_events(
                    old(self)@.mods,
                    list_spec(old(self)@.store),
                ),
                ..old(self)@
            }),
    {
        let disk_mods: Vec<Mod> = match self.disk.list() {
            Ok(v) => v,
            Err(_) => {
                proof {
                    assert(false);
                }
                return ;
            },
        };
        let ghost mods0 = self@.mods;
        let ghost diskv = list_spec(self@.store);
        let ghost ev0 = self@.events;
        proof {
            assert(disk_mods@.map_values(|m: Mod| m@) == diskv);
            crate::store::lemma_list_spec_unique(self@.store);
        }

        let mut i: usize = 0;
        while i < self.cache.len()
            invariant
                i <= self.cache@.len(),
                self@.mods == mods0,
                self@.store == old(self)@.store,
                self@.api_configured == old(self)@.api_configured,
                self@.api_poll_interval_ms == old(self)@.api_poll_interval_ms,
                self@.api_step_max_delay_ms == old(self)@.api_step_max_delay_ms,
                self@.local_scan_interval_ms == old(self)@.local_scan_interval_ms,
                disk_mods@.map_values(|m: Mod| m@) == diskv,
                self@.events == ev0 + removed_events(mods0.take(i as int), diskv),
            decreases self.cache@.len() - i,
        {
            proof {
                lemma_removed_events_step(mods0, diskv, i as int);
            }
            let absent = match find_mod_in(&disk_mods, self.cache[i].id.as_str()) {
                None => true,
                Some(_) => false,
            };
            if absent {
                proof {
                    assert(!cache_has(diskv, mods0[i as int].id));
                    assert(mods0[i as int].id == self.cache[i as int].id@);
                }
                let ghost before = self@.events;
                self.outbox.push(DetectedChange::Removed { id: self.cache[i].id.clone() });
                proof {
                    let x = DetectedChangeView::Removed { id: mods0[i as int].id };
                    let tail = seq![x];
                    assert(removed_events(mods0.take(i + 1), diskv) == removed_events(
                        mods0.take(i as int),
                        diskv,
                    ) + tail);
                    assert(self@.events =~= before.push(x));
                    assert(before.push(x) =~= ev0 + (removed_events(mods0.take(i as int), diskv)
                        + tail));
                    assert(self@.events =~= ev0 + removed_events(mods0.take(i + 1), diskv));
                }
            } else {
                proof {
                    assert(self@.events =~= ev0 + removed_events(mods0.take(i + 1), diskv));
                }
            }
            i += 1;
        }
        proof {
            assert(mods0.take(mods0.len() as int) =~= mods0);
        }

        let mut j: usize = 0;
        while j < disk_mods.len()
            invariant
                j <= disk_mods@.len(),
                old(self).wf(),
                self@.mods == mods0,
                mods0 == old(self)@.mods,
                self@.store == old(self)@.store,
                self@.api_configured == old(self)@.api_configured,
                self@.api_poll_interval_ms == old(self)@.api_poll_interval_ms,
                self@.api_step_max_delay_ms == old(self)@.api_step_max_delay_ms,
                self@.local_scan_interval_ms == old(self)@.local_scan_interval_ms,
                disk_mods@.map_values(|m: Mod| m@) == diskv,
                self@.events == ev0 + removed_events(mods0, diskv) + diff_events(
                    mods0,
                    diskv.take(j as int),
                ),
            decreases disk_mods@.len() - j,
        {
            proof {
                lemma_diff_events_step(mods0, diskv, j as int);
            }
            let d = &disk_mods[j];
            match self.find_index(d.id.as_str()) {
                None => {
                    let ghost before = self@.events;
                    self.outbox.push(DetectedChange::Added { installed: d.clone_value() });
                    proof {
                        let x = DetectedChangeView::Added { installed: diskv[j as int] };
                        assert(diff_events(mods0, diskv.take(j + 1)) == diff_events(
                            mods0,
                            diskv.take(j as int),
                        ) + seq![x]);
                        assert(self@.events =~= before.push(x));
                        assert(before.push(x) =~= ev0 + removed_events(mods0, diskv) + (
                        diff_events(mods0, diskv.take(j as int)) + seq![x]));
                        assert(self@.events =~= ev0 + removed_events(mods0, diskv) + diff_events(
                            mods0,
                            diskv.take(j + 1),
                        ));
                    }
                },
                Some(ci) => {
                    proof {
                        lemma_cache_index(mods0, ci as int);
                    }
                    if !self.cache[ci].matches(d) {
                        let ghost before = self@.events;
                        self.outbox.push(DetectedChange::Updated { installed: d.clone_value() });
                        proof {
                            let x = DetectedChangeView::Updated { installed: diskv[j as int] };
                            assert(cache_at(mods0, diskv[j as int].id) != diskv[j as int]);
                            assert(diff_events(mods0, diskv.take(j + 1)) == diff_events(
                                mods0,
                                diskv.take(j as int),
                            ) + seq![x]);
                            assert(self@.events =~= before.push(x));
                            assert(before.push(x) =~= ev0 + removed_events(mods0, diskv) + (
                            diff_events(mods0, diskv.take(j as int)) + seq![x]));
                            assert(self@.events =~= ev0 + removed_events(mods0, diskv)
                                + diff_events(mods0, diskv.take(j + 1)));
                        }
                    } else {
                        proof {
                            assert(cache_at(mods0, diskv[j as int].id) == diskv[j as int]);
                            assert(diff_events(mods0, diskv.take(j + 1)) =~= diff_events(
                                mods0,
                                diskv.take(j as int),
                            ));
                            assert(self@.events =~= ev0 + removed_events(mods0, diskv)
                                + diff_events(mods0, diskv.take(j + 1)));
                        }
                    }
                },
            }
            j += 1;
        }
        proof {
            assert(diskv.take(diskv.len() as int) =~= diskv);
        }

        let mut new_cache: Vec<Mod> = Vec::new();
        let mut i2: usize = 0;
        while i2 < self.cache.len()
            invariant
                i2 <= self.cache@.len(),
                self@.mods == mods0,
                disk_mods@.map_values(|m: Mod| m@) == diskv,
                forall|a: int, b: int|
                    0 <= a < b < diskv.len() ==> (#[trigger] diskv[a]).id != (
                    #[trigger] diskv[b]).id,
                new_cache@.map_values(|m: Mod| m@) == survivors(mods0.take(i2 as int), diskv),
            decreases self.cache@.len() - i2,
        {
            proof {
                lemma_survivors_step(mods0, diskv, i2 as int);
            }
            match find_mod_in(&disk_mods, self.cache[i2].id.as_str()) {
                None => {
                    proof {
                        assert(new_cache@.map_values(|m: Mod| m@) =~= survivors(
                            mods0.take(i2 + 1),
                            diskv,
                        ));
                    }
                },
                Some(di) => {
                    proof {
                        lemma_cache_index(diskv, di as int);
                    }
                    new_cache.push(disk_mods[di].clone_value());
                    proof {
                        assert(new_cache@.map_values(|m: Mod| m@) =~= survivors(
                            mods0.take(i2 + 1),
                            diskv,
                        ));
                    }
                },
            }
            i2 += 1;
        }

        let mut j2: usize = 0;
        while j2 < disk_mods.len()
            invariant
                j2 <= disk_mods@.len(),
                self@.mods == mods0,
                disk_mods@.map_values(|m: Mod| m@) == diskv,
                new_cache@.map_values(|m: Mod| m@) == survivors(mods0, diskv) + added_mods(
                    mods0,
                    diskv.take(j2 as int),
                ),
            decreases disk_mods@.len() - j2,
        {
            proof {
                lemma_added_mods_step(mods0, diskv, j2 as int);
            }
            match self.find_index(disk_mods[j2].id.as_str()) {
                None => {
                    let ghost before = new_cache@.map_values(|m: Mod| m@);
                    new_cache.push(disk_mods[j2].clone_value());
                    proof {
                        let x = diskv[j2 as int];
                        assert(added_mods(mods0, diskv.take(j2 + 1)) == added_mods(
                            mods0,
                            diskv.take(j2 as int),
                        ) + seq![x]);
                        assert(new_cache@.map_values(|m: Mod| m@) =~= before.push(x));
                        assert(before.push(x) =~= survivors(mods0, diskv) + (added_mods(
                            mods0,
                            diskv.take(j2 as int),
                        ) + seq![x]));
                        assert(new_cache@.map_values(|m: Mod| m@) =~= survivors(mods0, diskv)
                            + added_mods(mods0, diskv.take(j2 + 1)));
                    }
                },
                Some(_) => {
                    proof {
                        assert(new_cache@.map_values(|m: Mod| m@) =~= survivors(mods0, diskv)
                            + added_mods(mods0, diskv.take(j2 + 1)));
                    }
                },
            }
            j2 += 1;
        }
        proof {
            assert(mods0.take(mods0.len() as int) =~= mods0);
            assert(diskv.take(diskv.len() as int) =~= diskv);
        }
        self.cache = new_cache;
        proof {
            lemma_scan_convergence(mods0, diskv);
            assert(self@ =~= (CacheView {
                mods: scan_result(old(self)@.mods, list_spec(old(self)@.store)),
                events: old(self)@.events + scan_events(
                    old(self)@.mods,
                    list_spec(old(self)@.store),
                ),
                ..old(self)@
            }));
        }
    }
}

impl ModCache {
    /// Removes a mod: the store acts first; only a successful removal
    /// leaves the map and emits the `Removed` event.
    pub fn remove(&mut self, id: &str) -> (r: Result<(), Error>)
        requires
            old(self).wf(),
        ensures
            final(self).wf(),
            (unit_result_view(r), final(self)@.store) == remove_spec(old(self)@.store, id@),
            r is Ok ==> final(self)@ == (CacheView {
                store: remove_spec(old(self)@.store, id@).1,
                mods: cache_drop(old(self)@.mods, id@),
                events: old(self)@.events.push(DetectedChangeView::Removed { id: id@ }),
                ..old(self)@
            }),
            r is Err ==> final(self)@ == old(self)@,
    {
        match self.disk.remove(id) {
            Err(e) => Err(e),
            Ok(u) => {
                match self.find_index(id) {
                    Some(i) => {
                        proof {
                            lemma_cache_index(old(self)@.mods, i as int);
                        }
                        self.cache.remove(i);
                        proof {
                            assert(self@.mods =~= cache_drop(old(self)@.mods, id@));
                        }
                    },
                    None => {
                        proof {
                            assert(self@.mods =~= cache_drop(old(self)@.mods, id@));
                        }
                    },
                }
                self.outbox.push(DetectedChange::Removed { id: id.to_owned() });
                proof {
                    lemma_cache_drop(old(self)@.mods, id@);
                    assert(self@.events =~= old(self)@.events.push(
                        DetectedChangeView::Removed { id: id@ },
                    ));
                    assert(self@ =~= (CacheView {
                        store: remove_spec(old(self)@.store, id@).1,
                        mods: cache_drop(old(self)@.mods, id@),
                        events: old(self)@.events.push(DetectedChangeView::Removed { id: id@ }),
                        ..old(self)@
                    }));
                }
                Ok(u)
            },
        }
    }

    /// Installs a mod from a local file: the store acts first; only a
    /// successful install enters the map and emits the `Added` event.
    pub fn install_local(&mut self, source: &crate::remote::SourceFile, dest_id: &str) -> (r:
        Result<Mod, Error>)
        requires
            old(self).wf(),
        ensures
            final(self).wf(),
            (mod_result_view(r), final(self)@.store) == install_local_spec(
                old(self)@.store,
                source@,
                dest_id@,
            ),
            r matches Ok(m) ==> final(self)@ == (CacheView {
                store: install_local_spec(old(self)@.store, source@, dest_id@).1,
                mods: cache_upsert(old(self)@.mods, m@),
                events: old(self)@.events.push(DetectedChangeView::Added { installed: m@ }),
                ..old(self)@
            }),
            r is Err ==> final(self)@ == (CacheView {
                store: install_local_spec(old(self)@.store, source@, dest_id@).1,
                ..old(self)@
            }),
    {
        match self.disk.install_local(source, dest_id) {
            Err(e) => {
                proof {
                    assert(self@ =~= (CacheView {
                        store: install_local_spec(old(self)@.store, source@, dest_id@).1,
                        ..old(self)@
                    }));
                }
                Err(e)
            },
            Ok(m) => {
                let r = self.mod_installed(m);
                proof {
                    assert(self@ =~= (CacheView {
                        store: install_local_spec(old(self)@.store, source@, dest_id@).1,
                        mods: cache_upsert(old(self)@.mods, r@),
                        events: old(self)@.events.push(
                            DetectedChangeView::Added { installed: r@ },
                        ),
                        ..old(self)@
                    }));
                }
                Ok(r)
            },
        }
    }

    /// Installs a downloaded mod: the store acts first; only a
    /// successful install enters the map and emits the `Added` event.
    pub fn install_remote(&mut self, downloaded: &crate::remote::DownloadedMod) -> (r: Result<
        Mod,
        Error,
    >)
        requires
            old(self).wf(),
        ensures
            final(self).wf(),
            (mod_result_view(r), final(self)@.store) == install_remote_spec(
                old(self)@.store,
                downloaded@,
            ),
            r matches Ok(m) ==> final(self)@ == (CacheView {
                store: install_remote_spec(old(self)@.store, downloaded@).1,
                mods: cache_upsert(old(self)@.mods, m@),
                events: old(self)@.events.push(DetectedChangeView::Added { installed: m@ }),
                ..old(self)@
            }),
            r is Err ==> final(self)@ == (CacheView {
                store: install_remote_spec(old(self)@.store, downloaded@).1,
                ..old(self)@
            }),
    {
        match self.disk.install_remote(downloaded) {
            Err(e) => {
                proof {
                    assert(self@ =~= (CacheView {
                        store: install_remote_spec(old(self)@.store, downloaded@).1,
                        ..old(self)@
                    }));
                }
                Err(e)
            },
            Ok(m) => {
                let r = self.mod_installed(m);
                proof {
                    assert(self@ =~= (CacheView {
                        store: install_remote_spec(old(self)@.store, downloaded@).1,
                        mods: cache_upsert(old(self)@.mods, r@),
                        events: old(self)@.events.push(
                            DetectedChangeView::Added { installed: r@ },
                        ),
                        ..old(self)@
                    }));
                }
                Ok(r)
            },
        }
    }

    /// Updates a mod from a local file: the store acts first; only a
    /// successful update re-enters the map and emits the `Updated`
    /// event.
    pub fn update_local(&mut self, source: &crate::remote::SourceFile, dest_id: &str) -> (r:
        Result<Mod, Error>)
        requires
            old(self).wf(),
        ensures
            final(self).wf(),
            (mod_result_view(r), final(self)@.store) == update_local_spec(
                old(self)@.store,
                source@,
                dest_id@,
            ),
            r matches Ok(m) ==> final(self)@ == (CacheView {
                store: update_local_spec(old(self)@.store, source@, dest_id@).1,
                mods: cache_upsert(old(self)@.mods, m@),
                events: old(self)@.events.push(DetectedChangeView::Updated { installed: m@ }),
                ..old(self)@
            }),
            r is Err ==> final(self)@ == (CacheView {
                store: update_local_spec(old(self)@.store, source@, dest_id@).1,
                ..old(self)@
            }),
    {
        match self.disk.update_local(source, dest_id) {
            Err(e) => {
                proof {
                    assert(self@ =~= (CacheView {
                        store: update_local_spec(old(self)@.store, source@, dest_id@).1,
                        ..old(self)@
                    }));
                }
                Err(e)
            },
            Ok(m) => {
                let r = self.mod_updated(m);
                proof {
                    assert(self@ =~= (CacheView {
                        store: update_local_spec(old(self)@.store, source@, dest_id@).1,
                        mods: cache_upsert(old(self)@.mods, r@),
                        events: old(self)@.events.push(
                            DetectedChangeView::Updated { installed: r@ },
                        ),
                        ..old(self)@
                    }));
                }
                Ok(r)
            },
        }
    }

    /// Updates a downloaded mod: the store acts first; only a
    /// successful update re-enters the map and emits the `Updated`
    /// event.
    pub fn update_remote(&mut self, downloaded: &crate::remote::DownloadedMod) -> (r: Result<
        Mod,
        Error,
    >)
        requires
            old(self).wf(),
        ensures
            final(self).wf(),
            (mod_result_view(r), final(self)@.store) == update_remote_spec(
                old(self)@.store,
                downloaded@,
            ),
            r matches Ok(m) ==> final(self)@ == (CacheView {
                store: update_remote_spec(old(self)@.store, downloaded@).1,
                mods: cache_upsert(old(self)@.mods, m@),
                events: old(self)@.events.push(DetectedChangeView::Updated { installed: m@ }),
                ..old(self)@
            }),
            r is Err ==> final(self)@ == (CacheView {
                store: update_remote_spec(old(self)@.store, downloaded@).1,
                ..old(self)@
            }),
    {
        match self.disk.update_remote(downloaded) {
            Err(e) => {
                proof {
                    assert(self@ =~= (CacheView {
                        store: update_remote_spec(old(self)@.store, downloaded@).1,
                        ..old(self)@
                    }));
                }
                Err(e)
            },
            Ok(m) => {
                let r = self.mod_updated(m);
                proof {
                    assert(self@ =~= (CacheView {
                        store: update_remote_spec(old(self)@.store, downloaded@).1,
                        mods: cache_upsert(old(self)@.mods, r@),
                        events: old(self)@.events.push(
                            DetectedChangeView::Updated { installed: r@ },
                        ),
                        ..old(self)@
                    }));
                }
                Ok(r)
            },
        }
    }

    /// Writes the latest-version pointer through to the store; a fresh
    /// pointer emits the `NewVersion` event.
    pub fn update_latest_json(&mut self, api_mod: &crate::remote::Mod) -> (r: Result<
        Option<String>,
        Error,
    >)
        requires
            old(self).wf(),
        ensures
            final(self).wf(),
            (latest_result_view(r), final(self)@.store) == update_latest_spec(
                old(self)@.store,
                api_mod@,
            ),
            final(self)@.mods == old(self)@.mods,
            r matches Ok(Some(id)) ==> final(self)@.events == old(self)@.events.push(
                DetectedChangeView::NewVersion { id: id@ },
            ),
            latest_result_view(r) == Ok::<Option<Seq<char>>, ErrorView>(None) ==> final(self)@
                == (CacheView { store: update_latest_spec(old(self)@.store, api_mod@).1, ..old(
                self,
            )@ }),
    {
        match self.disk.update_latest_json(api_mod) {
            Err(e) => Err(e),
            Ok(None) => {
                proof {
                    assert(self@ =~= (CacheView {
                        store: update_latest_spec(old(self)@.store, api_mod@).1,
                        ..old(self)@
                    }));
                }
                Ok(None)
            },
            Ok(Some(id)) => {
                self.outbox.push(DetectedChange::NewVersion { id: id.clone() });
                proof {
                    assert(self@.events =~= old(self)@.events.push(
                        DetectedChangeView::NewVersion { id: id@ },
                    ));
                }
                Ok(Some(id))
            },
        }
    }

    /// The slugs the poll loop fetches: those of every cached mod that
    /// carries a manifest, in map order — or none at all when no remote
    /// client is configured.
    pub fn list_mods_to_fetch(&self) -> (r: Vec<String>)
        ensures
            r@.map_values(|s: String| s@) == fetch_list_spec(self@),
    {
        let mut out: Vec<String> = Vec::new();
        if !self.api_configured {
            proof {
                assert(out@.map_values(|s: String| s@) =~= fetch_list_spec(self@));
            }
            return out;
        }
        let ghost mods0 = self@.mods;
        let mut i: usize = 0;
        while i < self.cache.len()
            invariant
                i <= self.cache@.len(),
                mods0 == self@.mods,
                self@.api_configured,
                out@.map_values(|s: String| s@) == fetch_slugs(mods0.take(i as int)),
            decreases self.cache@.len() - i,
        {
            proof {
                assert(mods0.take(i + 1).drop_last() =~= mods0.take(i as int));
                assert(mods0.take(i + 1).last() == mods0[i as int]);
            }
            match &self.cache[i].manifest {
                Some(m) => {
                    let ghost before = out@.map_values(|s: String| s@);
                    out.push(m.slug.clone());
                    proof {
                        assert(out@.map_values(|s: String| s@) =~= before.push(
                            mods0[i as int].manifest->Some_0.slug,
                        ));
                        assert(before.push(mods0[i as int].manifest->Some_0.slug) =~= fetch_slugs(
                            mods0.take(i + 1),
                        ));
                    }
                },
                None => {
                    proof {
                        assert(out@.map_values(|s: String| s@) =~= fetch_slugs(mods0.take(i + 1)));
                    }
                },
            }
            i += 1;
        }
        proof {
            assert(mods0.take(mods0.len() as int) =~= mods0);
        }
        out
    }

    fn mod_installed(&mut self, new_mod: Mod) -> (r: Mod)
        requires
            old(self).wf(),
        ensures
            final(self).wf(),
            r@ == new_mod@,
            final(self)@ == (CacheView {
                mods: cache_upsert(old(self)@.mods, new_mod@),
                events: old(self)@.events.push(
                    DetectedChangeView::Added { installed: new_mod@ },
                ),
                ..old(self)@
            }),
    {
        let r = self.record_mod(new_mod);
        self.outbox.push(DetectedChange::Added { installed: r.clone_value() });
        proof {
            assert(self@.events =~= old(self)@.events.push(
                DetectedChangeView::Added { installed: r@ },
            ));
            assert(self@ =~= (CacheView {
                mods: cache_upsert(old(self)@.mods, r@),
                events: old(self)@.events.push(DetectedChangeView::Added { installed: r@ }),
                ..old(self)@
            }));
        }
        r
    }

    fn mod_updated(&mut self, new_mod: Mod) -> (r: Mod)
        requires
            old(self).wf(),
        ensures
            final(self).wf(),
            r@ == new_mod@,
            final(self)@ == (CacheView {
                mods: cache_upsert(old(self)@.mods, new_mod@),
                events: old(self)@.events.push(
                    DetectedChangeView::Updated { installed: new_mod@ },
                ),
                ..old(self)@
            }),
    {
        let r = self.record_mod(new_mod);
        self.outbox.push(DetectedChange::Updated { installed: r.clone_value() });
        proof {
            assert(self@.events =~= old(self)@.events.push(
                DetectedChangeView::Updated { installed: r@ },
            ));
            assert(self@ =~= (CacheView {
                mods: cache_upsert(old(self)@.mods, r@),
                events: old(self)@.events.push(DetectedChangeView::Updated { installed: r@ }),
                ..old(self)@
            }));
        }
        r
    }

    fn record_mod(&mut self, new_mod: Mod) -> (r: Mod)
        requires
            old(self).wf(),
        ensures
            final(self).wf(),
            r@ == new_mod@,
            final(self)@ == (CacheView { mods: cache_upsert(old(self)@.mods, new_mod@), ..old(
                self,
            )@ }),
    {
        proof {
            lemma_cache_upsert(old(self)@.mods, new_mod@);
        }
        match self.find_index(new_mod.id.as_str()) {
            Some(i) => {
                proof {
                    lemma_cache_index(old(self)@.mods, i as int);
                }
                let r = new_mod.clone_value();
                self.cache.set(i, new_mod);
                proof {
                    assert(self@.mods =~= cache_upsert(old(self)@.mods, r@));
                    assert(self@ =~= (CacheView {
                        mods: cache_upsert(old(self)@.mods, r@),
                        ..old(self)@
                    }));
                }
                r
            },
            None => {
                let r = new_mod.clone_value();
                self.cache.push(new_mod);
                proof {
                    assert(self@.mods =~= cache_upsert(old(self)@.mods, r@));
                    assert(self@ =~= (CacheView {
                        mods: cache_upsert(old(self)@.mods, r@),
                        ..old(self)@
                    }));
                }
                r
            },
        }
    }
}

/// The slugs of the cached mods that carry a manifest, in map order.
pub open spec fn fetch_slugs(mods: Seq<ModView>) -> Seq<Seq<char>>
    decreases mods.len(),
{
    if mods.len() == 0 {
        Seq::empty()
    } else {
        fetch_slugs(mods.drop_last()) + match mods.last().manifest {
            Some(m) => seq![m.slug],
            None => Seq::empty(),
        }
    }
}

/// What `list_mods_to_fetch` returns: nothing without a remote client,
/// else the manifest-carrying slugs.
pub open spec fn fetch_list_spec(c: CacheView) -> Seq<Seq<char>> {
    if !c.api_configured {
        Seq::empty()
    } else {
        fetch_slugs(c.mods)
    }
}

} // verus!
