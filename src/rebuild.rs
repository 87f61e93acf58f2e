//! Re-creating the manager from persisted records.
use vstd::prelude::*;
use crate::errors::BpfdError;
use crate::manager::{
    dispatchers_wf, has_dispatcher, owners_valid, BpfManager, DispatcherRecord, ManagerView,
};
use crate::program::{DispatcherId, Program};
use crate::registry::{
    canonical, count, count_on, ids_unique, key_set, lemma_canonical_fixed, lemma_canonical_same,
    lemma_idx_finite, lemma_same_slots_sets, lemma_with_attached, on_key, place_all, same_slots,
};

verus! {

/// The records as read back from disk, each marked as attached.
pub open spec fn marked_attached(s: Seq<(u128, Program)>) -> Seq<(u128, Program)> {
    s.map_values(|e: (u128, Program)| (e.0, e.1.with_attached(true)))
}

/// The state that persisted records describe.
pub open spec fn rebuilt(s: Seq<(u128, Program)>, ds: Seq<DispatcherRecord>) -> ManagerView {
    ManagerView { programs: canonical(marked_attached(s)), dispatchers: ds }
}

/// Persisted records that describe a state the manager can be in.
pub open spec fn records_consistent(s: Seq<(u128, Program)>, ds: Seq<DispatcherRecord>) -> bool {
    ids_unique(s) && owners_valid(s) && dispatchers_wf(s, ds)
}

proof fn lemma_marked_same(s: Seq<(u128, Program)>)
    ensures
        same_slots(marked_attached(s), s),
        forall|j: int|
            0 <= j < s.len() ==> (#[trigger] marked_attached(s)[j]).1.spec_data() == s[j].1.spec_data(),
{
    assert forall|j: int| 0 <= j < s.len() implies (#[trigger] marked_attached(s)[j]).0 == s[j].0
        && marked_attached(s)[j].1.dispatcher() == s[j].1.dispatcher()
        && marked_attached(s)[j].1.prio() == s[j].1.prio()
        && marked_attached(s)[j].1.spec_data() == s[j].1.spec_data() by {
        lemma_with_attached(s[j].1, true);
    }
}

/// The rebuilt state is well formed exactly when the records are consistent.
proof fn lemma_rebuilt_wf(s: Seq<(u128, Program)>, ds: Seq<DispatcherRecord>)
    ensures
        rebuilt(s, ds).wf() <==> records_consistent(s, ds),
{
    let m = marked_attached(s);
    let c = canonical(m);
    lemma_marked_same(s);
    lemma_canonical_same(m);
    lemma_same_slots_sets(c, m);
    lemma_same_slots_sets(m, s);
    assert forall|d: DispatcherId| #[trigger] count(c, d) == count(s, d) by {}
    assert(c.len() == s.len());
    assert forall|j: int| 0 <= j < s.len() implies #[trigger] c[j].0 == s[j].0 by {
        assert(m[j].0 == s[j].0);
    }
    assert(ids_unique(c) <==> ids_unique(s)) by {
        if ids_unique(s) {
            assert forall|a: int, b: int| 0 <= a < c.len() && 0 <= b < c.len() && a != b implies c[a].0 != c[b].0 by {
                assert(c[a].0 == s[a].0 && c[b].0 == s[b].0);
            }
        }
        if ids_unique(c) {
            assert forall|a: int, b: int| 0 <= a < s.len() && 0 <= b < s.len() && a != b implies s[a].0 != s[b].0 by {
                assert(c[a].0 == s[a].0 && c[b].0 == s[b].0);
            }
        }
    }
    assert(owners_valid(c) <==> owners_valid(s)) by {
        assert forall|j: int| 0 <= j < s.len() implies (#[trigger] c[j]).0 == s[j].0 && c[j].1.map_owner()
            == s[j].1.map_owner() by {
            assert(m[j].0 == s[j].0);
        }
        if owners_valid(s) {
            assert forall|i: int| 0 <= i < c.len() && (#[trigger] c[i]).1.map_owner() is Some implies exists|j: int|
                0 <= j < c.len() && (#[trigger] c[j]).0 == c[i].1.map_owner().unwrap()
                    && c[j].1.map_owner() is None by {
                let j = choose|j: int|
                    0 <= j < s.len() && (#[trigger] s[j]).0 == s[i].1.map_owner().unwrap()
                        && s[j].1.map_owner() is None;
                assert(c[j].0 == s[j].0);
            }
        }
        if owners_valid(c) {
            assert forall|i: int| 0 <= i < s.len() && (#[trigger] s[i]).1.map_owner() is Some implies exists|j: int|
                0 <= j < s.len() && (#[trigger] s[j]).0 == s[i].1.map_owner().unwrap()
                    && s[j].1.map_owner() is None by {
                assert(c[i].0 == s[i].0);
                let j = choose|j: int|
                    0 <= j < c.len() && (#[trigger] c[j]).0 == c[i].1.map_owner().unwrap()
                        && c[j].1.map_owner() is None;
                assert(c[j].0 == s[j].0);
            }
        }
    }
    assert(dispatchers_wf(c, ds) <==> dispatchers_wf(s, ds)) by {
        if dispatchers_wf(s, ds) {
            assert forall|d: DispatcherId| #[trigger] count(c, d) <= 10 by {
                assert(count(s, d) <= 10);
            }
            assert forall|d: DispatcherId| #[trigger] has_dispatcher(ds, d) <==> count(c, d) >= 1 by {
                assert(has_dispatcher(ds, d) <==> count(s, d) >= 1);
            }
        }
        if dispatchers_wf(c, ds) {
            assert forall|d: DispatcherId| #[trigger] count(s, d) <= 10 by {
                assert(count(c, d) <= 10);
            }
            assert forall|d: DispatcherId| #[trigger] has_dispatcher(ds, d) <==> count(s, d) >= 1 by {
                assert(has_dispatcher(ds, d) <==> count(c, d) >= 1);
            }
        }
    }
    assert(crate::manager::all_attached(c)) by {
        assert forall|i: int| 0 <= i < c.len() implies (#[trigger] c[i]).1.is_attached() by {
            lemma_with_attached(s[i].1, true);
        }
    }
}

/// Rebuilding from the records of a reachable state gives that state back.
pub proof fn law_rebuild_reflects_state(v: ManagerView)
    requires
        v.wf(),
    ensures
        records_consistent(v.programs, v.dispatchers),
        rebuilt(v.programs, v.dispatchers) == v,
{
    let s = v.programs;
    lemma_rebuilt_wf(s, v.dispatchers);
    assert(marked_attached(s) =~= s) by {
        assert forall|j: int| 0 <= j < s.len() implies #[trigger] marked_attached(s)[j] == s[j] by {
            lemma_with_attached(s[j].1, true);
            match s[j].1 {
                Program::Xdp(x) => {
                    assert(s[j].1.with_attached(true) == s[j].1);
                },
                Program::Tc(x) => {
                    assert(s[j].1.with_attached(true) == s[j].1);
                },
                _ => {},
            }
        }
    }
    lemma_canonical_fixed(s);
}

fn check_ids_unique(v: &Vec<(u128, Program)>) -> (r: bool)
    ensures
        r == ids_unique(v@),
{
    let mut i: usize = 0;
    while i < v.len()
        invariant
            i <= v@.len(),
            forall|a: int, b: int| 0 <= a < i && 0 <= b < v@.len() && a != b ==> v@[a].0 != v@[b].0,
        decreases v@.len() - i,
    {
        let mut j: usize = 0;
        while j < v.len()
            invariant
                i < v@.len(),
                j <= v@.len(),
                forall|a: int, b: int| 0 <= a < i && 0 <= b < v@.len() && a != b ==> v@[a].0 != v@[b].0,
                forall|b: int| 0 <= b < j && b != i ==> v@[i as int].0 != v@[b].0,
            decreases v@.len() - j,
        {
            if j != i && v[i].0 == v[j].0 {
                return false;
            }
            j = j + 1;
        }
        i = i + 1;
    }
    true
}

fn check_owners(v: &Vec<(u128, Program)>) -> (r: bool)
    ensures
        r == owners_valid(v@),
{
    let mut i: usize = 0;
    while i < v.len()
        invariant
            i <= v@.len(),
            forall|a: int|
                0 <= a < i && (#[trigger] v@[a]).1.map_owner() is Some ==> exists|j: int|
                    0 <= j < v@.len() && (#[trigger] v@[j]).0 == v@[a].1.map_owner().unwrap()
                        && v@[j].1.map_owner() is None,
        decreases v@.len() - i,
    {
        match v[i].1.map_owner_id() {
            Some(g) => {
                let mut j: usize = 0;
                let mut found = false;
                while j < v.len()
                    invariant
                        i < v@.len(),
                        j <= v@.len(),
                        v@[i as int].1.map_owner() == Some(g),
                        found ==> exists|b: int|
                            0 <= b < v@.len() && (#[trigger] v@[b]).0 == g && v@[b].1.map_owner() is None,
                        !found ==> forall|b: int|
                            0 <= b < j ==> !((#[trigger] v@[b]).0 == g && v@[b].1.map_owner() is None),
                        found ==> j == v@.len(),
                    decreases v@.len() - j,
                {
                    if v[j].0 == g && v[j].1.map_owner_id().is_none() {
                        found = true;
                        j = v.len();
                    } else {
                        j = j + 1;
                    }
                }
                if !found {
                    return false;
                }
            },
            None => {},
        }
        i = i + 1;
    }
    true
}

fn check_dispatchers(v: &Vec<(u128, Program)>, ds: &Vec<DispatcherRecord>) -> (r: bool)
    ensures
        r == dispatchers_wf(v@, ds@),
{
    let mut a: usize = 0;
    while a < ds.len()
        invariant
            a <= ds@.len(),
            forall|x: int, y: int| 0 <= x < a && 0 <= y < ds@.len() && x != y ==> ds@[x].id != ds@[y].id,
            forall|x: int| 0 <= x < a ==> count(v@, (#[trigger] ds@[x]).id) >= 1,
        decreases ds@.len() - a,
    {
        let mut b: usize = 0;
        while b < ds.len()
            invariant
                a < ds@.len(),
                b <= ds@.len(),
                forall|x: int, y: int| 0 <= x < a && 0 <= y < ds@.len() && x != y ==> ds@[x].id != ds@[y].id,
                forall|y: int| 0 <= y < b && y != a ==> ds@[a as int].id != ds@[y].id,
            decreases ds@.len() - b,
        {
            if b != a && ds[a].id == ds[b].id {
                return false;
            }
            b = b + 1;
        }
        if count_on(v, ds[a].id) == 0 {
            proof {
                assert(!(has_dispatcher(ds@, ds@[a as int].id) <==> count(v@, ds@[a as int].id) >= 1));
            }
            return false;
        }
        a = a + 1;
    }
    let mut i: usize = 0;
    while i < v.len()
        invariant
            i <= v@.len(),
            forall|x: int, y: int| 0 <= x < ds@.len() && 0 <= y < ds@.len() && x != y ==> ds@[x].id != ds@[y].id,
            forall|x: int| 0 <= x < ds@.len() ==> count(v@, (#[trigger] ds@[x]).id) >= 1,
            forall|j: int|
                0 <= j < i && (#[trigger] v@[j]).1.dispatcher() is Some ==> count(v@, v@[j].1.dispatcher().unwrap())
                    <= 10 && has_dispatcher(ds@, v@[j].1.dispatcher().unwrap()),
        decreases v@.len() - i,
    {
        match v[i].1.dispatcher_id() {
            Some(d) => {
                if count_on(v, d) > 10 {
                    return false;
                }
                let mut k: usize = 0;
                let mut found = false;
                while k < ds.len()
                    invariant
                        k <= ds@.len(),
                        found ==> has_dispatcher(ds@, d),
                        !found ==> forall|y: int| 0 <= y < k ==> (#[trigger] ds@[y]).id != d,
                        found ==> k == ds@.len(),
                    decreases ds@.len() - k,
                {
                    if ds[k].id == d {
                        found = true;
                        k = ds.len();
                    } else {
                        k = k + 1;
                    }
                }
                if !found {
                    proof {
                        lemma_idx_finite(v@, crate::registry::key_pred(d), v@.len() as int);
                        let ks = key_set(v@, d, v@.len() as int);
                        assert(ks.contains(i as int));
                        assert(ks.remove(i as int).len() + 1 == ks.len());
                        assert(!has_dispatcher(ds@, d));
                    }
                    return false;
                }
            },
            None => {},
        }
        i = i + 1;
    }
    proof {
        assert forall|d: DispatcherId| #[trigger] count(v@, d) <= 10 && (has_dispatcher(ds@, d) <==> count(v@, d) >= 1) by {
            let ks = key_set(v@, d, v@.len() as int);
            lemma_idx_finite(v@, crate::registry::key_pred(d), v@.len() as int);
            if count(v@, d) >= 1 {
                let j = ks.choose();
                assert(ks.contains(j));
                assert(on_key(v@[j], d));
            }
            if has_dispatcher(ds@, d) {
                let x = choose|x: int| 0 <= x < ds@.len() && (#[trigger] ds@[x]).id == d;
                assert(count(v@, ds@[x].id) >= 1);
            }
        }
    }
    true
}

impl BpfManager {
    /// Re-creates the manager from persisted program and dispatcher records:
    /// every program is taken as attached and placed at its rank. Records
    /// that describe no state the manager can be in are refused.
    pub fn rebuild_state(records: Vec<(u128, Program)>, dispatchers: Vec<DispatcherRecord>) -> (r: Result<BpfManager, BpfdError>)
        ensures
            r is Ok <==> records_consistent(records@, dispatchers@),
            r matches Err(e) ==> e == BpfdError::InternalError,
            r matches Ok(m) ==> m@ == rebuilt(records@, dispatchers@) && m@.wf(),
    {
        if !check_ids_unique(&records) || !check_owners(&records) || !check_dispatchers(&records, &dispatchers) {
            return Err(BpfdError::InternalError);
        }
        let ghost s = records@;
        let mut programs = records;
        let mut i: usize = 0;
        while i < programs.len()
            invariant
                programs@.len() == s.len(),
                i <= s.len(),
                forall|j: int| 0 <= j < i ==> #[trigger] programs@[j] == marked_attached(s)[j],
                forall|j: int| i <= j < s.len() ==> #[trigger] programs@[j] == s[j],
            decreases s.len() - i,
        {
            let mut e = programs.remove(i);
            e.1.set_attached(true);
            programs.insert(i, e);
            i = i + 1;
        }
        proof {
            assert(programs@ =~= marked_attached(s));
        }
        place_all(&mut programs);
        proof {
            lemma_rebuilt_wf(s, dispatchers@);
        }
        Ok(BpfManager { programs, dispatchers })
    }
}

} // verus!
