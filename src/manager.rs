//! The program registry and dispatcher records: well-formedness, add, unload and rollback.
use vstd::prelude::*;
use crate::attach::{attach_error, check_attach};
use crate::errors::BpfdError;
use crate::ids::random_id;
use crate::maps::{calc_map_pin_path, get_map_index, map_index, map_pin_path, map_pin_path_of};
use crate::program::{DispatcherId, Program};
use crate::registry::{
    canonical, count, count_on, ids_unique, key_pred, key_set, lemma_canonical_same,
    lemma_idx_push, lemma_idx_remove, lemma_positions_dense, lemma_push_placed,
    lemma_rank_below_count, lemma_rank_monotone, lemma_remove_placed, lemma_same_slots_sets,
    lemma_with_attached, on_key, placed, positions_canonical, precedes, rank,
    registered, sort_programs,
};
use vstd::set_lib::set_int_range;
use vstd::string::*;

verus! {

/// The account allowed to unload any program.
pub const SUPERUSER: &'static str = "bpfctl";

/// The most programs one dispatcher can chain.
pub const MAX_DISPATCHER_PROGRAMS: usize = 10;

/// The live dispatcher of one interface (and direction).
#[derive(Debug, Clone, Copy)]
pub struct DispatcherRecord {
    pub id: DispatcherId,
    pub revision: u32,
    /// The kernel handle of the attachment, where the hook has one (TC).
    pub handle: Option<u32>,
}

/// The authoritative state: registered programs and live dispatchers.
/// Map groups are not stored apart: a group is the set of programs that
/// name the same group id.
pub struct BpfManager {
    pub programs: Vec<(u128, Program)>,
    pub dispatchers: Vec<DispatcherRecord>,
}

pub struct ManagerView {
    pub programs: Seq<(u128, Program)>,
    pub dispatchers: Seq<DispatcherRecord>,
}

impl View for BpfManager {
    type V = ManagerView;

    open spec fn view(&self) -> ManagerView {
        ManagerView { programs: self.programs@, dispatchers: self.dispatchers@ }
    }
}

/// The map group an entry belongs to.
pub open spec fn group_of(e: (u128, Program)) -> u128 {
    map_index(e.0, e.1.map_owner()).1
}

/// A map group exists while some program belongs to it.
pub open spec fn group_exists(s: Seq<(u128, Program)>, g: u128) -> bool {
    exists|i: int| 0 <= i < s.len() && group_of(#[trigger] s[i]) == g
}

/// The programs of map group `g`.
pub open spec fn used_by(s: Seq<(u128, Program)>, g: u128) -> Set<u128> {
    Set::new(|u: u128| exists|i: int| 0 <= i < s.len() && #[trigger] s[i].0 == u && group_of(s[i]) == g)
}

/// A program other than `id` belongs to the map group of `id`.
pub open spec fn shared(s: Seq<(u128, Program)>, id: u128) -> bool {
    exists|j: int| 0 <= j < s.len() && (#[trigger] s[j]).0 != id && group_of(s[j]) == id
}

/// Every program that names a map owner names a registered program that
/// owns its own group.
pub open spec fn owners_valid(s: Seq<(u128, Program)>) -> bool {
    forall|i: int|
        0 <= i < s.len() && (#[trigger] s[i]).1.map_owner() is Some ==> exists|j: int|
            0 <= j < s.len() && (#[trigger] s[j]).0 == s[i].1.map_owner().unwrap()
                && s[j].1.map_owner() is None
}

pub open spec fn all_attached(s: Seq<(u128, Program)>) -> bool {
    forall|i: int| 0 <= i < s.len() ==> (#[trigger] s[i]).1.is_attached()
}

pub open spec fn has_dispatcher(ds: Seq<DispatcherRecord>, d: DispatcherId) -> bool {
    exists|k: int| 0 <= k < ds.len() && (#[trigger] ds[k]).id == d
}

pub open spec fn dispatcher_index(ds: Seq<DispatcherRecord>, d: DispatcherId) -> int {
    choose|k: int| 0 <= k < ds.len() && (#[trigger] ds[k]).id == d
}

/// One record per dispatcher, a dispatcher exactly where programs use it,
/// and no more than the limit of programs on any of them.
pub open spec fn dispatchers_wf(s: Seq<(u128, Program)>, ds: Seq<DispatcherRecord>) -> bool {
    &&& forall|a: int, b: int|
        0 <= a < ds.len() && 0 <= b < ds.len() && a != b ==> (#[trigger] ds[a]).id != (#[trigger] ds[b]).id
    &&& forall|d: DispatcherId| #[trigger] count(s, d) <= MAX_DISPATCHER_PROGRAMS
    &&& forall|d: DispatcherId| #[trigger] has_dispatcher(ds, d) <==> count(s, d) >= 1
}

impl ManagerView {
    pub open spec fn wf(&self) -> bool {
        &&& ids_unique(self.programs)
        &&& positions_canonical(self.programs)
        &&& all_attached(self.programs)
        &&& owners_valid(self.programs)
        &&& dispatchers_wf(self.programs, self.dispatchers)
    }
}

/// Revisions count up, wrapping at the end of their range.
pub open spec fn next_revision(r: u32) -> u32 {
    if r == u32::MAX {
        0
    } else {
        (r + 1) as u32
    }
}

/// The dispatcher records after `d` was rebuilt with a new revision.
pub open spec fn revised(ds: Seq<DispatcherRecord>, d: DispatcherId) -> Seq<DispatcherRecord> {
    if has_dispatcher(ds, d) {
        let k = dispatcher_index(ds, d);
        ds.update(k, DispatcherRecord { id: d, revision: next_revision(ds[k].revision), handle: None })
    } else {
        ds.push(DispatcherRecord { id: d, revision: 1, handle: None })
    }
}

/// The record of dispatcher `d`, if there is one.
pub open spec fn record_of(ds: Seq<DispatcherRecord>, d: DispatcherId) -> Option<DispatcherRecord> {
    if has_dispatcher(ds, d) {
        Some(ds[dispatcher_index(ds, d)])
    } else {
        None
    }
}

/// Why a program cannot be added under an id that is not in use.
pub open spec fn add_error_for(s: Seq<(u128, Program)>, p: Program) -> Option<BpfdError> {
    if p.map_owner() matches Some(g) && !group_exists(s, g) {
        Some(BpfdError::MapGroupMissing)
    } else if attach_error(p) is Some {
        attach_error(p)
    } else if p.dispatcher() matches Some(d) && count(s, d) >= MAX_DISPATCHER_PROGRAMS {
        Some(BpfdError::TooManyPrograms)
    } else {
        None
    }
}

/// Why a program cannot be added under `id`, if it cannot.
pub open spec fn add_error(s: Seq<(u128, Program)>, p: Program, id: u128) -> Option<BpfdError> {
    if registered(s, id) {
        Some(BpfdError::IdInUse)
    } else {
        add_error_for(s, p)
    }
}

/// The state after `p` was added under `id`.
pub open spec fn spec_add(v: ManagerView, id: u128, p: Program) -> ManagerView {
    ManagerView {
        programs: canonical(v.programs.push((id, p.with_attached(true)))),
        dispatchers: match p.dispatcher() {
            Some(d) => revised(v.dispatchers, d),
            None => v.dispatchers,
        },
    }
}

pub open spec fn index_of(s: Seq<(u128, Program)>, id: u128) -> int {
    choose|i: int| 0 <= i < s.len() && (#[trigger] s[i]).0 == id
}

/// Why `requester` cannot unload program `id`, if it cannot.
pub open spec fn remove_error(s: Seq<(u128, Program)>, id: u128, requester: Seq<char>) -> Option<BpfdError> {
    if !registered(s, id) {
        Some(BpfdError::InvalidId)
    } else if !(s[index_of(s, id)].1.spec_data().owner@ == requester || requester == SUPERUSER@) {
        Some(BpfdError::NotAuthorized)
    } else if s[index_of(s, id)].1.map_owner() is None && shared(s, id) {
        Some(BpfdError::MapInUse)
    } else {
        None
    }
}

/// The state after program `id` was unloaded.
pub open spec fn spec_remove(v: ManagerView, id: u128) -> ManagerView {
    let i = index_of(v.programs, id);
    let rest = canonical(v.programs.remove(i));
    ManagerView {
        programs: rest,
        dispatchers: match v.programs[i].1.dispatcher() {
            Some(d) => if count(rest, d) == 0 {
                v.dispatchers.remove(dispatcher_index(v.dispatchers, d))
            } else {
                revised(v.dispatchers, d)
            },
            None => v.dispatchers,
        },
    }
}

/// The state after an add of program `id` was undone, with the dispatcher
/// record that stood before it.
pub open spec fn spec_rollback(v: ManagerView, id: u128, old: Option<DispatcherRecord>) -> ManagerView {
    let i = index_of(v.programs, id);
    ManagerView {
        programs: canonical(v.programs.remove(i)),
        dispatchers: match v.programs[i].1.dispatcher() {
            Some(d) => match old {
                Some(rec) => v.dispatchers.update(dispatcher_index(v.dispatchers, d), rec),
                None => v.dispatchers.remove(dispatcher_index(v.dispatchers, d)),
            },
            None => v.dispatchers,
        },
    }
}

/// Adding a program that may be added keeps the state well formed.
pub proof fn lemma_add_wf(v: ManagerView, id: u128, p: Program)
    requires
        v.wf(),
        add_error(v.programs, p, id) is None,
    ensures
        spec_add(v, id, p).wf(),
        forall|d: DispatcherId|
            #[trigger] count(spec_add(v, id, p).programs, d) == count(v.programs, d) + if p.dispatcher()
                == Some(d) {
                1int
            } else {
                0int
            },
{
    let s = v.programs;
    let x = (id, p.with_attached(true));
    let t = s.push(x);
    let w = spec_add(v, id, p);
    let c = w.programs;
    lemma_with_attached(p, true);
    lemma_canonical_same(t);
    lemma_same_slots_sets(c, t);
    assert(ids_unique(c)) by {
        assert forall|i: int, j: int| 0 <= i < c.len() && 0 <= j < c.len() && i != j implies c[i].0 != c[j].0 by {
            assert(c[i].0 == t[i].0 && c[j].0 == t[j].0);
            if i == s.len() {
                assert(!registered(s, id));
                assert(t[j] == s[j]);
            } else if j == s.len() {
                assert(!registered(s, id));
                assert(t[i] == s[i]);
            } else {
                assert(t[i] == s[i] && t[j] == s[j]);
            }
        }
    }
    assert(all_attached(c)) by {
        assert forall|i: int| 0 <= i < c.len() implies (#[trigger] c[i]).1.is_attached() by {
            if i < s.len() {
                assert(t[i] == s[i]);
            }
        }
    }
    assert(owners_valid(c)) by {
        assert forall|i: int| 0 <= i < c.len() && (#[trigger] c[i]).1.map_owner() is Some implies exists|j: int|
            0 <= j < c.len() && (#[trigger] c[j]).0 == c[i].1.map_owner().unwrap()
                && c[j].1.map_owner() is None by {
            let g = c[i].1.map_owner().unwrap();
            let j = if i < s.len() {
                assert(t[i] == s[i]);
                choose|j: int| 0 <= j < s.len() && (#[trigger] s[j]).0 == g && s[j].1.map_owner() is None
            } else {
                let k = choose|k: int| 0 <= k < s.len() && group_of(#[trigger] s[k]) == g;
                if s[k].1.map_owner() is None {
                    k
                } else {
                    choose|j: int| 0 <= j < s.len() && (#[trigger] s[j]).0 == g && s[j].1.map_owner() is None
                }
            };
            assert(t[j] == s[j]);
            assert(c[j].0 == g && c[j].1.map_owner() is None);
        }
    }
    assert forall|d: DispatcherId| #[trigger] count(c, d) == count(s, d) + if p.dispatcher() == Some(d) {
        1int
    } else {
        0int
    } by {
        lemma_idx_push(s, x, key_pred(d));
    }
    let ds = v.dispatchers;
    let ds2 = w.dispatchers;
    assert(dispatchers_wf(c, ds2)) by {
        assert forall|d: DispatcherId| #[trigger] count(c, d) <= MAX_DISPATCHER_PROGRAMS by {
            assert(count(c, d) == count(s, d) + if p.dispatcher() == Some(d) { 1int } else { 0int });
        }
        match p.dispatcher() {
            Some(d0) => {
                if has_dispatcher(ds, d0) {
                    let k = dispatcher_index(ds, d0);
                    assert forall|d: DispatcherId| #[trigger] has_dispatcher(ds2, d) <==> count(c, d) >= 1 by {
                        assert(count(c, d) == count(s, d) + if p.dispatcher() == Some(d) { 1int } else { 0int });
                        if has_dispatcher(ds, d) {
                            let m = choose|m: int| 0 <= m < ds.len() && (#[trigger] ds[m]).id == d;
                            assert(ds2[m].id == d);
                        }
                        if has_dispatcher(ds2, d) {
                            let m = choose|m: int| 0 <= m < ds2.len() && (#[trigger] ds2[m]).id == d;
                            assert(ds[m].id == d);
                        }
                    }
                } else {
                    assert forall|d: DispatcherId| #[trigger] has_dispatcher(ds2, d) <==> count(c, d) >= 1 by {
                        assert(count(c, d) == count(s, d) + if p.dispatcher() == Some(d) { 1int } else { 0int });
                        if has_dispatcher(ds, d) {
                            let m = choose|m: int| 0 <= m < ds.len() && (#[trigger] ds[m]).id == d;
                            assert(ds2[m].id == d);
                        }
                        if has_dispatcher(ds2, d) && d != d0 {
                            let m = choose|m: int| 0 <= m < ds2.len() && (#[trigger] ds2[m]).id == d;
                            assert(ds[m].id == d);
                        }
                        if d == d0 {
                            assert(ds2[ds.len() as int].id == d);
                        }
                    }
                }
            },
            None => {
                assert forall|d: DispatcherId| #[trigger] has_dispatcher(ds2, d) <==> count(c, d) >= 1 by {
                    assert(count(c, d) == count(s, d));
                }
            },
        }
    }
}

/// Unloading a program that may be unloaded keeps the state well formed.
pub proof fn lemma_remove_wf(v: ManagerView, id: u128)
    requires
        v.wf(),
        registered(v.programs, id),
        !(v.programs[index_of(v.programs, id)].1.map_owner() is None && shared(v.programs, id)),
    ensures
        spec_remove(v, id).wf(),
        forall|d: DispatcherId|
            #[trigger] count(spec_remove(v, id).programs, d) + (if v.programs[index_of(v.programs, id)].1.dispatcher()
                == Some(d) {
                1int
            } else {
                0int
            }) == count(v.programs, d),
{
    let s = v.programs;
    let i = index_of(s, id);
    let t = s.remove(i);
    let w = spec_remove(v, id);
    let c = w.programs;
    lemma_canonical_same(t);
    lemma_same_slots_sets(c, t);
    assert forall|j: int| 0 <= j < t.len() implies #[trigger] t[j] == s[if j < i { j } else { j + 1 }] by {}
    assert(ids_unique(c)) by {
        assert forall|a: int, b: int| 0 <= a < c.len() && 0 <= b < c.len() && a != b implies c[a].0 != c[b].0 by {
            assert(c[a].0 == t[a].0 && c[b].0 == t[b].0);
            assert(t[a] == s[if a < i { a } else { a + 1 }]);
            assert(t[b] == s[if b < i { b } else { b + 1 }]);
        }
    }
    assert(all_attached(c)) by {
        assert forall|a: int| 0 <= a < c.len() implies (#[trigger] c[a]).1.is_attached() by {
            assert(t[a] == s[if a < i { a } else { a + 1 }]);
        }
    }
    assert(owners_valid(c)) by {
        assert forall|a: int| 0 <= a < c.len() && (#[trigger] c[a]).1.map_owner() is Some implies exists|j: int|
            0 <= j < c.len() && (#[trigger] c[j]).0 == c[a].1.map_owner().unwrap()
                && c[j].1.map_owner() is None by {
            let sa = if a < i { a } else { a + 1 };
            assert(t[a] == s[sa]);
            let g = s[sa].1.map_owner().unwrap();
            let j = choose|j: int| 0 <= j < s.len() && (#[trigger] s[j]).0 == g && s[j].1.map_owner() is None;
            if j == i {
                assert(s[sa].0 != id);
                assert(group_of(s[sa]) == id);
                assert(shared(s, id));
            }
            let tj = if j < i { j } else { j - 1 };
            assert(t[tj] == s[j]);
            assert(c[tj].0 == g && c[tj].1.map_owner() is None);
        }
    }
    let pi = s[i].1;
    assert forall|d: DispatcherId| #[trigger] count(c, d) + (if pi.dispatcher() == Some(d) {
        1int
    } else {
        0int
    }) == count(s, d) by {
        lemma_idx_remove(s, i, key_pred(d));
    }
    let ds = v.dispatchers;
    let ds2 = w.dispatchers;
    assert(dispatchers_wf(c, ds2)) by {
        assert forall|d: DispatcherId| #[trigger] count(c, d) <= MAX_DISPATCHER_PROGRAMS by {
            assert(count(c, d) + (if pi.dispatcher() == Some(d) { 1int } else { 0int }) == count(s, d));
        }
        match pi.dispatcher() {
            Some(d0) => {
                assert(count(s, d0) >= 1);
                assert(has_dispatcher(ds, d0));
                let k = dispatcher_index(ds, d0);
                if count(c, d0) == 0 {
                    assert forall|a: int, b: int|
                        0 <= a < ds2.len() && 0 <= b < ds2.len() && a != b implies (#[trigger] ds2[a]).id
                        != (#[trigger] ds2[b]).id by {
                        assert(ds2[a] == ds[if a < k { a } else { a + 1 }]);
                        assert(ds2[b] == ds[if b < k { b } else { b + 1 }]);
                    }
                    assert forall|d: DispatcherId| #[trigger] has_dispatcher(ds2, d) <==> count(c, d) >= 1 by {
                        assert(count(c, d) + (if pi.dispatcher() == Some(d) { 1int } else { 0int }) == count(s, d));
                        if has_dispatcher(ds, d) && d != d0 {
                            let m = choose|m: int| 0 <= m < ds.len() && (#[trigger] ds[m]).id == d;
                            let m2 = if m < k { m } else { m - 1 };
                            assert(ds2[m2] == ds[m]);
                        }
                        if has_dispatcher(ds2, d) {
                            let m = choose|m: int| 0 <= m < ds2.len() && (#[trigger] ds2[m]).id == d;
                            let m1 = if m < k { m } else { m + 1 };
                            assert(ds2[m] == ds[m1]);
                        }
                    }
                } else {
                    assert forall|d: DispatcherId| #[trigger] has_dispatcher(ds2, d) <==> count(c, d) >= 1 by {
                        assert(count(c, d) + (if pi.dispatcher() == Some(d) { 1int } else { 0int }) == count(s, d));
                        if has_dispatcher(ds, d) {
                            let m = choose|m: int| 0 <= m < ds.len() && (#[trigger] ds[m]).id == d;
                            assert(ds2[m].id == d);
                        }
                        if has_dispatcher(ds2, d) {
                            let m = choose|m: int| 0 <= m < ds2.len() && (#[trigger] ds2[m]).id == d;
                            assert(ds[m].id == d);
                        }
                    }
                }
            },
            None => {
                assert forall|d: DispatcherId| #[trigger] has_dispatcher(ds2, d) <==> count(c, d) >= 1 by {
                    assert(count(c, d) == count(s, d));
                }
            },
        }
    }
}

/// One program of a dispatcher, in the order the dispatcher calls them.
#[derive(Debug, Clone, Copy)]
pub struct Extension {
    pub id: u128,
    /// Whether the program is already loaded and only has to be linked to
    /// the new revision; otherwise its bytecode has to be loaded.
    pub attached: bool,
}

/// What the kernel side has to build for a new revision of a dispatcher.
#[derive(Debug)]
pub struct ReconcilePlan {
    pub dispatcher: DispatcherId,
    pub revision: u32,
    /// The revision to tear down once the new one is attached.
    pub old: Option<DispatcherRecord>,
    /// The programs, slot by slot.
    pub extensions: Vec<Extension>,
}

/// What the kernel side has to do to carry out an accepted add.
#[derive(Debug)]
pub struct AddPlan {
    pub id: u128,
    pub map_owner: bool,
    pub map_pin_path: String,
    pub reconcile: Option<ReconcilePlan>,
}

/// What becomes of a program's dispatcher when the program is unloaded.
#[derive(Debug)]
pub enum DispatcherChange {
    Unaffected,
    Delete(DispatcherRecord),
    Rebuild(ReconcilePlan),
}

/// What the kernel side has to do to carry out an accepted unload.
#[derive(Debug)]
pub struct RemovePlan {
    pub program: Program,
    /// The pin directory to remove, when the program's map group ends with it.
    pub map_pin_path: Option<String>,
    pub dispatcher: DispatcherChange,
}

/// `ext` lists, slot by slot, the programs of dispatcher `d`; only `fresh`
/// still has to be loaded.
pub open spec fn extensions_match(
    ext: Seq<Extension>,
    s: Seq<(u128, Program)>,
    d: DispatcherId,
    fresh: Option<u128>,
) -> bool {
    &&& ext.len() == count(s, d)
    &&& forall|k: int| 0 <= k < ext.len() ==> #[trigger] slot_filled(ext, s, d, fresh, k)
}

/// Slot `k` holds the program of `d` placed at `k`.
pub open spec fn slot_filled(
    ext: Seq<Extension>,
    s: Seq<(u128, Program)>,
    d: DispatcherId,
    fresh: Option<u128>,
    k: int,
) -> bool {
    exists|i: int|
        #![trigger s[i]]
        0 <= i < s.len() && on_key(s[i], d) && s[i].1.position() == Some(k as usize) && ext[k] == (
        Extension { id: s[i].0, attached: fresh != Some(s[i].0) })
}

/// The plan rebuilds `d` as the new state has it, replacing the old record.
pub open spec fn reconcile_match(
    rp: ReconcilePlan,
    before: ManagerView,
    after: ManagerView,
    d: DispatcherId,
    fresh: Option<u128>,
) -> bool {
    &&& rp.dispatcher == d
    &&& rp.old == record_of(before.dispatchers, d)
    &&& record_of(after.dispatchers, d) matches Some(r) && r.revision == rp.revision
    &&& extensions_match(rp.extensions@, after.programs, d, fresh)
}

pub open spec fn add_plan_match(plan: AddPlan, before: ManagerView, id: u128, p: Program) -> bool {
    &&& plan.id == id
    &&& plan.map_owner == map_index(id, p.map_owner()).0
    &&& plan.map_pin_path@ == map_pin_path_of(map_index(id, p.map_owner()).1)
    &&& match p.dispatcher() {
        Some(d) => plan.reconcile matches Some(rp) && reconcile_match(
            rp,
            before,
            spec_add(before, id, p),
            d,
            Some(id),
        ),
        None => plan.reconcile is None,
    }
}

/// The plan unloads the program as the new state has it.
pub open spec fn remove_plan_match(plan: RemovePlan, before: ManagerView, after: ManagerView, id: u128) -> bool {
    let p = before.programs[index_of(before.programs, id)].1;
    &&& plan.program == p
    &&& (plan.map_pin_path is Some <==> p.map_owner() is None)
    &&& (plan.map_pin_path matches Some(path) ==> path@ == map_pin_path_of(id))
    &&& match p.dispatcher() {
        None => plan.dispatcher is Unaffected,
        Some(d) => if count(after.programs, d) == 0 {
            plan.dispatcher matches DispatcherChange::Delete(rec) && record_of(before.dispatchers, d)
                == Some(rec)
        } else {
            plan.dispatcher matches DispatcherChange::Rebuild(rp) && reconcile_match(
                rp,
                before,
                after,
                d,
                None,
            )
        },
    }
}

/// An add of program `id` can be undone with the dispatcher record `old`:
/// the program's map group has no other member, and `old` stands exactly
/// where the dispatcher had other programs.
pub open spec fn rollback_ok(v: ManagerView, id: u128, old: Option<DispatcherRecord>) -> bool {
    let p = v.programs[index_of(v.programs, id)].1;
    &&& registered(v.programs, id)
    &&& !(p.map_owner() is None && shared(v.programs, id))
    &&& match p.dispatcher() {
        Some(d) => (old matches Some(o) ==> o.id == d) && (old is Some <==> count(v.programs, d) >= 2),
        None => true,
    }
}

/// Dispatcher well-formedness depends on the records' ids alone.
pub proof fn lemma_dispatchers_same_ids(
    s: Seq<(u128, Program)>,
    ds1: Seq<DispatcherRecord>,
    ds2: Seq<DispatcherRecord>,
)
    requires
        dispatchers_wf(s, ds1),
        ds1.len() == ds2.len(),
        forall|k: int| 0 <= k < ds1.len() ==> (#[trigger] ds1[k]).id == ds2[k].id,
    ensures
        dispatchers_wf(s, ds2),
{
    assert forall|a: int, b: int|
        0 <= a < ds2.len() && 0 <= b < ds2.len() && a != b implies (#[trigger] ds2[a]).id != (#[trigger] ds2[b]).id by {
        assert(ds1[a].id == ds2[a].id && ds1[b].id == ds2[b].id);
    }
    assert forall|d: DispatcherId| #[trigger] has_dispatcher(ds2, d) <==> count(s, d) >= 1 by {
        if has_dispatcher(ds1, d) {
            let m = choose|m: int| 0 <= m < ds1.len() && (#[trigger] ds1[m]).id == d;
            assert(ds2[m].id == d);
        }
        if has_dispatcher(ds2, d) {
            let m = choose|m: int| 0 <= m < ds2.len() && (#[trigger] ds2[m]).id == d;
            assert(ds1[m].id == d);
        }
    }
}

/// Undoing an add keeps the state well formed.
pub proof fn lemma_rollback_wf(v: ManagerView, id: u128, old: Option<DispatcherRecord>)
    requires
        v.wf(),
        rollback_ok(v, id, old),
    ensures
        spec_rollback(v, id, old).wf(),
        spec_rollback(v, id, old).programs == spec_remove(v, id).programs,
{
    lemma_remove_wf(v, id);
    let i = index_of(v.programs, id);
    let w = spec_remove(v, id);
    let z = spec_rollback(v, id, old);
    match v.programs[i].1.dispatcher() {
        Some(d) => {
            assert(count(w.programs, d) + 1 == count(v.programs, d));
            match old {
                Some(o) => {
                    let k = dispatcher_index(v.dispatchers, d);
                    assert(has_dispatcher(v.dispatchers, d));
                    assert(z.dispatchers.len() == w.dispatchers.len());
                    assert forall|m: int| 0 <= m < w.dispatchers.len() implies (#[trigger] w.dispatchers[m]).id
                        == z.dispatchers[m].id by {}
                    lemma_dispatchers_same_ids(w.programs, w.dispatchers, z.dispatchers);
                },
                None => {},
            }
        },
        None => {},
    }
}

pub proof fn lemma_index_of(s: Seq<(u128, Program)>, i: int)
    requires
        ids_unique(s),
        0 <= i < s.len(),
    ensures
        index_of(s, s[i].0) == i,
        registered(s, s[i].0),
{
}

pub proof fn lemma_dispatcher_index(ds: Seq<DispatcherRecord>, k: int)
    requires
        forall|a: int, b: int|
            0 <= a < ds.len() && 0 <= b < ds.len() && a != b ==> (#[trigger] ds[a]).id != (#[trigger] ds[b]).id,
        0 <= k < ds.len(),
    ensures
        dispatcher_index(ds, ds[k].id) == k,
        has_dispatcher(ds, ds[k].id),
{
}

/// Lists the programs of dispatcher `d` slot by slot.
fn collect_extensions(v: &Vec<(u128, Program)>, d: DispatcherId, fresh: Option<u128>) -> (r: Vec<Extension>)
    requires
        ids_unique(v@),
        positions_canonical(v@),
    ensures
        extensions_match(r@, v@, d, fresh),
{
    let c = count_on(v, d);
    let mut ext: Vec<Extension> = Vec::new();
    let mut k: usize = 0;
    while k < c
        invariant
            k <= c,
            ext@.len() == k,
        decreases c - k,
    {
        ext.push(Extension { id: 0, attached: true });
        k = k + 1;
    }
    let mut i: usize = 0;
    while i < v.len()
        invariant
            i <= v@.len(),
            ext@.len() == c,
            c == count(v@, d),
            ids_unique(v@),
            positions_canonical(v@),
            forall|j: int|
                0 <= j < i && on_key(#[trigger] v@[j], d) ==> ext@[rank(v@, d, v@[j].1.prio(), v@[j].0) as int]
                    == (Extension { id: v@[j].0, attached: fresh != Some(v@[j].0) }),
        decreases v@.len() - i,
    {
        let on = match v[i].1.dispatcher_id() {
            Some(kd) => kd == d,
            None => false,
        };
        if on {
            let pos = v[i].1.current_position();
            proof {
                lemma_rank_below_count(v@, i as int, d);
            }
            match pos {
                Some(p) => {
                    let e = Extension { id: v[i].0, attached: !(fresh == Some(v[i].0)) };
                    proof {
                        assert forall|j: int| 0 <= j < i && on_key(#[trigger] v@[j], d) implies rank(
                            v@,
                            d,
                            v@[j].1.prio(),
                            v@[j].0,
                        ) != p by {
                            if precedes(v@[j].1.prio(), v@[j].0, v@[i as int].1.prio(), v@[i as int].0) {
                                lemma_rank_monotone(v@, d, j, v@[i as int].1.prio(), v@[i as int].0);
                            } else {
                                lemma_rank_monotone(v@, d, i as int, v@[j].1.prio(), v@[j].0);
                            }
                        }
                    }
                    let ghost before = ext@;
                    ext.set(p, e);
                    proof {
                        assert(v@[i as int].1.position() == Some(
                            rank(v@, d, v@[i as int].1.prio(), v@[i as int].0) as usize,
                        ));
                        assert forall|j: int| 0 <= j < i + 1 && on_key(#[trigger] v@[j], d) implies ext@[rank(
                            v@,
                            d,
                            v@[j].1.prio(),
                            v@[j].0,
                        ) as int] == (Extension { id: v@[j].0, attached: fresh != Some(v@[j].0) }) by {
                            lemma_rank_below_count(v@, j, d);
                            if j < i {
                                assert(before[rank(v@, d, v@[j].1.prio(), v@[j].0) as int] == (Extension {
                                    id: v@[j].0,
                                    attached: fresh != Some(v@[j].0),
                                }));
                            }
                        }
                    }
                },
                None => {},
            }
        }
        i = i + 1;
    }
    proof {
        lemma_positions_dense(v@, d);
        let ks = key_set(v@, d, v@.len() as int);
        let f = |i: int| rank(v@, d, v@[i].1.prio(), v@[i].0) as int;
        assert forall|k: int| 0 <= k < ext@.len() implies #[trigger] slot_filled(ext@, v@, d, fresh, k) by {
            assert(set_int_range(0, c as int).contains(k));
            assert(ks.map(f).contains(k));
            let i = choose|i: int| ks.contains(i) && f(i) == k;
            assert(on_key(v@[i], d));
            lemma_rank_below_count(v@, i, d);
            assert(v@[i].1.position() == Some(rank(v@, d, v@[i].1.prio(), v@[i].0) as usize));
            assert(ext@[k] == (Extension { id: v@[i].0, attached: fresh != Some(v@[i].0) }));
        }
        assert(ext@.len() == count(v@, d));
        assert(extensions_match(ext@, v@, d, fresh));
    }
    ext
}

impl BpfManager {
    /// A manager with nothing loaded.
    pub fn new() -> (r: BpfManager)
        ensures
            r@.wf(),
            r@.programs.len() == 0,
            r@.dispatchers.len() == 0,
    {
        let r = BpfManager { programs: Vec::new(), dispatchers: Vec::new() };
        proof {
            assert forall|d: DispatcherId| #[trigger] count(r@.programs, d) == 0 by {
                assert(key_set(r@.programs, d, 0) =~= Set::empty());
            }
        }
        r
    }

    /// The index of program `id`.
    pub fn find_program(&self, id: u128) -> (r: Option<usize>)
        ensures
            match r {
                Some(i) => i < self.programs@.len() && self.programs@[i as int].0 == id,
                None => !registered(self.programs@, id),
            },
    {
        let mut i: usize = 0;
        while i < self.programs.len()
            invariant
                i <= self.programs@.len(),
                forall|j: int| 0 <= j < i ==> (#[trigger] self.programs@[j]).0 != id,
            decreases self.programs@.len() - i,
        {
            if self.programs[i].0 == id {
                return Some(i);
            }
            i = i + 1;
        }
        None
    }

    /// The index of the record of dispatcher `d`.
    pub fn find_dispatcher(&self, d: DispatcherId) -> (r: Option<usize>)
        ensures
            match r {
                Some(k) => k < self.dispatchers@.len() && self.dispatchers@[k as int].id == d,
                None => !has_dispatcher(self.dispatchers@, d),
            },
    {
        let mut k: usize = 0;
        while k < self.dispatchers.len()
            invariant
                k <= self.dispatchers@.len(),
                forall|j: int| 0 <= j < k ==> (#[trigger] self.dispatchers@[j]).id != d,
            decreases self.dispatchers@.len() - k,
        {
            if self.dispatchers[k].id == d {
                return Some(k);
            }
            k = k + 1;
        }
        None
    }

    /// Whether map group `g` exists.
    pub fn map_group_exists(&self, g: u128) -> (r: bool)
        ensures
            r == group_exists(self.programs@, g),
    {
        let mut i: usize = 0;
        while i < self.programs.len()
            invariant
                i <= self.programs@.len(),
                forall|j: int| 0 <= j < i ==> group_of(#[trigger] self.programs@[j]) != g,
            decreases self.programs@.len() - i,
        {
            let (_, group) = get_map_index(self.programs[i].0, self.programs[i].1.map_owner_id());
            if group == g {
                return true;
            }
            i = i + 1;
        }
        false
    }

    /// Whether a program other than `id` uses the map group of `id`.
    pub fn map_shared(&self, id: u128) -> (r: bool)
        ensures
            r == shared(self.programs@, id),
    {
        let mut i: usize = 0;
        while i < self.programs.len()
            invariant
                i <= self.programs@.len(),
                forall|j: int|
                    0 <= j < i ==> !((#[trigger] self.programs@[j]).0 != id && group_of(self.programs@[j]) == id),
            decreases self.programs@.len() - i,
        {
            let (_, group) = get_map_index(self.programs[i].0, self.programs[i].1.map_owner_id());
            if self.programs[i].0 != id && group == id {
                return true;
            }
            i = i + 1;
        }
        false
    }

    /// Registers `program` under `id` and plans its dispatcher's new
    /// revision. On error nothing changes.
    pub fn add_program_with_id(&mut self, program: Program, id: u128) -> (r: Result<AddPlan, BpfdError>)
        requires
            old(self)@.wf(),
        ensures
            final(self)@.wf(),
            r is Ok <==> add_error(old(self)@.programs, program, id) is None,
            r matches Err(e) ==> add_error(old(self)@.programs, program, id) == Some(e) && final(self)@
                == old(self)@,
            r matches Ok(plan) ==> final(self)@ == spec_add(old(self)@, id, program) && add_plan_match(
                plan,
                old(self)@,
                id,
                program,
            ),
    {
        if self.find_program(id).is_some() {
            return Err(BpfdError::IdInUse);
        }
        match program.map_owner_id() {
            Some(g) => {
                if !self.map_group_exists(g) {
                    return Err(BpfdError::MapGroupMissing);
                }
            },
            None => {},
        }
        match check_attach(&program) {
            Ok(()) => {},
            Err(e) => {
                return Err(e);
            },
        }
        let did = program.dispatcher_id();
        match did {
            Some(d) => {
                if count_on(&self.programs, d) >= MAX_DISPATCHER_PROGRAMS {
                    return Err(BpfdError::TooManyPrograms);
                }
            },
            None => {},
        }
        let (map_owner, path) = calc_map_pin_path(id, program.map_owner_id());
        let ghost pre = self@;
        let ghost given = program;
        let ghost x = (id, given.with_attached(true));
        let mut program = program;
        program.set_attached(true);
        self.programs.push((id, program));
        proof {
            lemma_add_wf(pre, id, given);
            lemma_with_attached(given, true);
            lemma_push_placed(pre.programs, x);
        }
        match did {
            None => Ok(AddPlan { id, map_owner, map_pin_path: path, reconcile: None }),
            Some(d) => {
                let ghost t = self.programs@;
                sort_programs(&mut self.programs, d);
                proof {
                    assert forall|j: int| 0 <= j < t.len() implies #[trigger] self.programs@[j] == canonical(t)[j] by {
                        if j < pre.programs.len() {
                            assert(t[j] == pre.programs[j]);
                        }
                    }
                    assert(self.programs@ =~= canonical(t));
                }
                let ghost after = spec_add(pre, id, given);
                let old = match self.find_dispatcher(d) {
                    Some(k) => {
                        let rec = self.dispatchers[k];
                        proof {
                            lemma_dispatcher_index(pre.dispatchers, k as int);
                        }
                        let rev = if rec.revision == u32::MAX {
                            0
                        } else {
                            rec.revision + 1
                        };
                        self.dispatchers.set(k, DispatcherRecord { id: d, revision: rev, handle: None });
                        proof {
                            assert(self.dispatchers@ =~= after.dispatchers);
                            lemma_dispatcher_index(after.dispatchers, k as int);
                        }
                        Some(rec)
                    },
                    None => {
                        self.dispatchers.push(DispatcherRecord { id: d, revision: 1, handle: None });
                        proof {
                            assert(self.dispatchers@ =~= after.dispatchers);
                            lemma_dispatcher_index(after.dispatchers, pre.dispatchers.len() as int);
                        }
                        None
                    },
                };
                let revision = match self.find_dispatcher(d) {
                    Some(k) => {
                        proof {
                            lemma_dispatcher_index(after.dispatchers, k as int);
                        }
                        self.dispatchers[k].revision
                    },
                    None => 0,
                };
                let extensions = collect_extensions(&self.programs, d, Some(id));
                Ok(
                    AddPlan {
                        id,
                        map_owner,
                        map_pin_path: path,
                        reconcile: Some(ReconcilePlan { dispatcher: d, revision, old, extensions }),
                    },
                )
            },
        }
    }

    /// Registers `program` under the id asked for, or under a fresh random
    /// one, and plans its dispatcher's new revision. On error nothing changes.
    pub fn add_program(&mut self, program: Program, requested: Option<u128>) -> (r: Result<AddPlan, BpfdError>)
        requires
            old(self)@.wf(),
        ensures
            final(self)@.wf(),
            r matches Err(_) ==> final(self)@ == old(self)@,
            requested matches Some(id) ==> (r is Ok <==> add_error(old(self)@.programs, program, id) is None)
                && (r matches Err(e) ==> add_error(old(self)@.programs, program, id) == Some(e)),
            requested is None ==> exists|x: u128|
                (r is Ok <==> add_error(old(self)@.programs, program, x) is None) && (r matches Err(e)
                    ==> add_error(old(self)@.programs, program, x) == Some(e)) && (r matches Ok(plan)
                    ==> plan.id == x),
            requested is None ==> (r matches Err(e) ==> e == BpfdError::IdInUse || add_error_for(
                old(self)@.programs,
                program,
            ) == Some(e)) && (add_error_for(old(self)@.programs, program) is Some ==> r is Err),
            r matches Ok(plan) ==> !registered(old(self)@.programs, plan.id) && (requested matches Some(id)
                ==> plan.id == id) && final(self)@ == spec_add(old(self)@, plan.id, program)
                && add_plan_match(plan, old(self)@, plan.id, program),
    {
        let id = match requested {
            Some(id) => id,
            None => random_id(),
        };
        let r = self.add_program_with_id(program, id);
        proof {
            assert((r is Ok <==> add_error(old(self)@.programs, program, id) is None) && (r matches Err(e)
                ==> add_error(old(self)@.programs, program, id) == Some(e)) && (r matches Ok(plan)
                ==> plan.id == id));
        }
        r
    }

    /// Unloads program `id` on behalf of `requester`. On error nothing changes.
    pub fn remove_program(&mut self, id: u128, requester: &str) -> (r: Result<RemovePlan, BpfdError>)
        requires
            old(self)@.wf(),
        ensures
            final(self)@.wf(),
            r is Ok <==> remove_error(old(self)@.programs, id, requester@) is None,
            r matches Err(e) ==> remove_error(old(self)@.programs, id, requester@) == Some(e)
                && final(self)@ == old(self)@,
            r matches Ok(plan) ==> final(self)@ == spec_remove(old(self)@, id) && remove_plan_match(
                plan,
                old(self)@,
                final(self)@,
                id,
            ),
    {
        let i = match self.find_program(id) {
            Some(i) => i,
            None => {
                return Err(BpfdError::InvalidId);
            },
        };
        proof {
            lemma_index_of(self.programs@, i as int);
        }
        let req = String::from_str(requester);
        let su = String::from_str(SUPERUSER);
        if !(self.programs[i].1.data().owner == req || req == su) {
            return Err(BpfdError::NotAuthorized);
        }
        let is_owner = self.programs[i].1.map_owner_id().is_none();
        if is_owner && self.map_shared(id) {
            return Err(BpfdError::MapInUse);
        }
        let map_dir = if is_owner {
            Some(map_pin_path(id))
        } else {
            None
        };
        let ghost pre = self@;
        let (_, program) = self.programs.remove(i);
        proof {
            lemma_remove_wf(pre, id);
            lemma_remove_placed(pre.programs, i as int);
        }
        let ghost after = spec_remove(pre, id);
        match program.dispatcher_id() {
            None => Ok(RemovePlan { program, map_pin_path: map_dir, dispatcher: DispatcherChange::Unaffected }),
            Some(d) => {
                let ghost t = self.programs@;
                sort_programs(&mut self.programs, d);
                proof {
                    assert(self.programs@ =~= canonical(t));
                    assert(count(pre.programs, d) >= 1);
                }
                let k = match self.find_dispatcher(d) {
                    Some(k) => k,
                    None => {
                        return Err(BpfdError::InternalError);
                    },
                };
                proof {
                    lemma_dispatcher_index(pre.dispatchers, k as int);
                }
                let rec = self.dispatchers[k];
                let c = count_on(&self.programs, d);
                if c == 0 {
                    self.dispatchers.remove(k);
                    proof {
                        assert(self.dispatchers@ =~= after.dispatchers);
                    }
                    Ok(RemovePlan { program, map_pin_path: map_dir, dispatcher: DispatcherChange::Delete(rec) })
                } else {
                    let rev = if rec.revision == u32::MAX {
                        0
                    } else {
                        rec.revision + 1
                    };
                    self.dispatchers.set(k, DispatcherRecord { id: d, revision: rev, handle: None });
                    proof {
                        assert(self.dispatchers@ =~= after.dispatchers);
                        lemma_dispatcher_index(after.dispatchers, k as int);
                    }
                    let extensions = collect_extensions(&self.programs, d, None);
                    Ok(
                        RemovePlan {
                            program,
                            map_pin_path: map_dir,
                            dispatcher: DispatcherChange::Rebuild(
                                ReconcilePlan { dispatcher: d, revision: rev, old: Some(rec), extensions },
                            ),
                        },
                    )
                }
            },
        }
    }

    /// Undoes an add whose kernel side failed: drops the program again and
    /// puts back the dispatcher record that stood before. Returns the record
    /// of the program.
    pub fn abort_add(&mut self, id: u128, previous: Option<DispatcherRecord>) -> (r: Program)
        requires
            old(self)@.wf(),
            rollback_ok(old(self)@, id, previous),
        ensures
            final(self)@.wf(),
            final(self)@ == spec_rollback(old(self)@, id, previous),
            r == old(self)@.programs[index_of(old(self)@.programs, id)].1,
    {
        let ghost pre = self@;
        proof {
            lemma_rollback_wf(pre, id, previous);
        }
        let i = match self.find_program(id) {
            Some(i) => i,
            None => {
                proof {
                    assert(false);
                }
                0
            },
        };
        proof {
            lemma_index_of(self.programs@, i as int);
        }
        let (_, program) = self.programs.remove(i);
        proof {
            lemma_remove_wf(pre, id);
            lemma_remove_placed(pre.programs, i as int);
        }
        match program.dispatcher_id() {
            None => program,
            Some(d) => {
                let ghost t = self.programs@;
                sort_programs(&mut self.programs, d);
                proof {
                    assert(self.programs@ =~= canonical(t));
                    assert(count(pre.programs, d) >= 1);
                }
                let k = match self.find_dispatcher(d) {
                    Some(k) => k,
                    None => {
                        proof {
                            assert(false);
                        }
                        0
                    },
                };
                proof {
                    lemma_dispatcher_index(pre.dispatchers, k as int);
                }
                match previous {
                    Some(rec) => {
                        self.dispatchers.set(k, rec);
                    },
                    None => {
                        self.dispatchers.remove(k);
                    },
                }
                proof {
                    assert(self.dispatchers@ =~= spec_rollback(pre, id, previous).dispatchers);
                }
                program
            },
        }
    }

    /// Records the kernel handle under which dispatcher `d` got attached.
    pub fn set_dispatcher_handle(&mut self, d: DispatcherId, handle: u32)
        requires
            old(self)@.wf(),
        ensures
            final(self)@.wf(),
            final(self)@.programs == old(self)@.programs,
            has_dispatcher(old(self)@.dispatchers, d) ==> final(self)@.dispatchers == old(self)@.dispatchers.update(
                dispatcher_index(old(self)@.dispatchers, d),
                DispatcherRecord { handle: Some(handle), ..old(self)@.dispatchers[dispatcher_index(old(self)@.dispatchers, d)] },
            ),
            !has_dispatcher(old(self)@.dispatchers, d) ==> final(self)@ == old(self)@,
    {
        match self.find_dispatcher(d) {
            Some(k) => {
                let ghost pre = self@;
                proof {
                    lemma_dispatcher_index(pre.dispatchers, k as int);
                }
                let rec = self.dispatchers[k];
                self.dispatchers.set(k, DispatcherRecord { handle: Some(handle), ..rec });
                proof {
                    lemma_dispatchers_same_ids(pre.programs, pre.dispatchers, self.dispatchers@);
                }
            },
            None => {},
        }
    }

    /// Records what the kernel reported for program `id`.
    pub fn set_kernel_info(&mut self, id: u128, info: crate::program::KernelInfo) -> (r: bool)
        requires
            old(self)@.wf(),
        ensures
            final(self)@.wf(),
            r == registered(old(self)@.programs, id),
            final(self)@.dispatchers == old(self)@.dispatchers,
            final(self)@.programs.len() == old(self)@.programs.len(),
            forall|j: int|
                0 <= j < old(self)@.programs.len() && old(self)@.programs[j].0 != id ==> #[trigger] final(self)@.programs[j] == old(self)@.programs[j],
            forall|j: int|
                0 <= j < old(self)@.programs.len() && old(self)@.programs[j].0 == id ==> (#[trigger] final(self)@.programs[j]).1.spec_data() == (crate::program::ProgramData {
                    kernel_info: Some(info),
                    ..old(self)@.programs[j].1.spec_data()
                }),
    {
        match self.find_program(id) {
            Some(i) => {
                let ghost pre = self@;
                proof {
                    lemma_index_of(pre.programs, i as int);
                }
                let mut e = self.programs.remove(i);
                e.1.set_kernel_info(info);
                self.programs.insert(i, e);
                proof {
                    let s = pre.programs;
                    let t = self.programs@;
                    assert(crate::registry::same_slots(t, s));
                    lemma_same_slots_sets(t, s);
                    assert forall|d: DispatcherId| #[trigger] count(t, d) == count(s, d) by {}
                    assert forall|j: int| 0 <= j < s.len() implies #[trigger] t[j].1.map_owner() == s[j].1.map_owner()
                        && t[j].1.is_attached() == s[j].1.is_attached() && t[j].1.position() == s[j].1.position() by {}
                    assert(owners_valid(t)) by {
                        assert forall|a: int| 0 <= a < t.len() && (#[trigger] t[a]).1.map_owner() is Some implies exists|j: int|
                            0 <= j < t.len() && (#[trigger] t[j]).0 == t[a].1.map_owner().unwrap()
                                && t[j].1.map_owner() is None by {
                            let j = choose|j: int|
                                0 <= j < s.len() && (#[trigger] s[j]).0 == s[a].1.map_owner().unwrap()
                                    && s[j].1.map_owner() is None;
                            assert(t[j].0 == s[j].0);
                        }
                    }
                    assert forall|d: DispatcherId| #[trigger] has_dispatcher(pre.dispatchers, d) <==> count(t, d) >= 1 by {
                        assert(count(t, d) == count(s, d));
                    }
                    assert forall|d: DispatcherId| #[trigger] count(t, d) <= MAX_DISPATCHER_PROGRAMS by {
                        assert(count(t, d) == count(s, d));
                    }
                }
                true
            },
            None => false,
        }
    }

    /// Plans a fresh revision of dispatcher `d` over the programs it
    /// carries, as after a restart. A dispatcher that has no record is left
    /// alone.
    pub fn rebuild_dispatcher(&mut self, d: DispatcherId) -> (r: DispatcherChange)
        requires
            old(self)@.wf(),
        ensures
            final(self)@.wf(),
            final(self)@.programs == old(self)@.programs,
            !has_dispatcher(old(self)@.dispatchers, d) ==> final(self)@ == old(self)@ && r is Unaffected,
            has_dispatcher(old(self)@.dispatchers, d) ==> final(self)@.dispatchers == revised(
                old(self)@.dispatchers,
                d,
            ) && (r matches DispatcherChange::Rebuild(rp) && reconcile_match(
                rp,
                old(self)@,
                final(self)@,
                d,
                None,
            )),
    {
        let k = match self.find_dispatcher(d) {
            Some(k) => k,
            None => {
                return DispatcherChange::Unaffected;
            },
        };
        let ghost pre = self@;
        proof {
            lemma_dispatcher_index(pre.dispatchers, k as int);
        }
        let rec = self.dispatchers[k];
        let rev = if rec.revision == u32::MAX {
            0
        } else {
            rec.revision + 1
        };
        self.dispatchers.set(k, DispatcherRecord { id: d, revision: rev, handle: None });
        proof {
            assert(self.dispatchers@ =~= revised(pre.dispatchers, d));
            lemma_dispatchers_same_ids(pre.programs, pre.dispatchers, self.dispatchers@);
            lemma_dispatcher_index(self.dispatchers@, k as int);
        }
        let extensions = collect_extensions(&self.programs, d, None);
        DispatcherChange::Rebuild(ReconcilePlan { dispatcher: d, revision: rev, old: Some(rec), extensions })
    }
}

} // verus!
