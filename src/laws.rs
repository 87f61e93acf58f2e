//! Properties that hold in every state the manager can reach.
use vstd::prelude::*;
use vstd::set_lib::*;
use crate::manager::{
    add_error, dispatcher_index, group_exists, group_of, has_dispatcher, index_of,
    lemma_add_wf, lemma_index_of, record_of, remove_error, rollback_ok, shared,
    spec_add, spec_remove, spec_rollback, used_by, ManagerView, MAX_DISPATCHER_PROGRAMS,
};
use crate::errors::BpfdError;
use crate::program::{DispatcherId, Program};
use crate::registry::{
    canonical, count, key_set, lemma_canonical_congruent, lemma_canonical_fixed,
    lemma_canonical_same, lemma_idx_finite, lemma_positions_dense, lemma_rank_monotone,
    lemma_with_attached, lemma_with_position, on_key, precedes, rank, registered,
    same_but_positions,
};

verus! {

/// No two registered programs share an id.
pub proof fn law_ids_unique(v: ManagerView, i: int, j: int)
    requires
        v.wf(),
        0 <= i < v.programs.len(),
        0 <= j < v.programs.len(),
        i != j,
    ensures
        v.programs[i].0 != v.programs[j].0,
{
}

/// A dispatcher carries at most ten programs, and it exists exactly while
/// it carries one.
pub proof fn law_dispatcher_bounds(v: ManagerView, d: DispatcherId)
    requires
        v.wf(),
    ensures
        count(v.programs, d) <= MAX_DISPATCHER_PROGRAMS,
        has_dispatcher(v.dispatchers, d) <==> count(v.programs, d) >= 1,
{
}

/// The positions of the programs of one dispatcher are `0 .. count`, one
/// each, ascending by priority and then by id.
pub proof fn law_positions_dense(v: ManagerView, d: DispatcherId)
    requires
        v.wf(),
    ensures
        key_set(v.programs, d, v.programs.len() as int).map(
            |i: int| v.programs[i].1.position().unwrap() as int,
        ) == set_int_range(0, count(v.programs, d) as int),
        forall|i: int, j: int|
            0 <= i < v.programs.len() && 0 <= j < v.programs.len() && on_key(v.programs[i], d)
                && on_key(v.programs[j], d) && precedes(
                v.programs[i].1.prio(),
                v.programs[i].0,
                v.programs[j].1.prio(),
                v.programs[j].0,
            ) ==> #[trigger] v.programs[i].1.position().unwrap() < #[trigger] v.programs[j].1.position().unwrap(),
{
    let s = v.programs;
    let ks = key_set(s, d, s.len() as int);
    let f = |i: int| rank(s, d, s[i].1.prio(), s[i].0) as int;
    let g = |i: int| s[i].1.position().unwrap() as int;
    lemma_positions_dense(s, d);
    assert forall|i: int| ks.contains(i) implies g(i) == f(i) by {
        assert(s[i].1.position() == Some(rank(s, d, s[i].1.prio(), s[i].0) as usize));
        crate::registry::lemma_rank_below_count(s, i, d);
    }
    assert(ks.map(g) =~= ks.map(f)) by {
        assert forall|x: int| ks.map(g).contains(x) implies ks.map(f).contains(x) by {
            let i = choose|i: int| ks.contains(i) && g(i) == x;
            assert(ks.contains(i) && f(i) == x);
        }
        assert forall|x: int| ks.map(f).contains(x) implies ks.map(g).contains(x) by {
            let i = choose|i: int| ks.contains(i) && f(i) == x;
            assert(ks.contains(i) && g(i) == x);
        }
    }
    assert forall|i: int, j: int|
        0 <= i < s.len() && 0 <= j < s.len() && on_key(s[i], d) && on_key(s[j], d) && precedes(
            s[i].1.prio(),
            s[i].0,
            s[j].1.prio(),
            s[j].0,
        ) implies #[trigger] s[i].1.position().unwrap() < #[trigger] s[j].1.position().unwrap() by {
        assert(s[i].1.position() == Some(rank(s, d, s[i].1.prio(), s[i].0) as usize));
        assert(s[j].1.position() == Some(rank(s, d, s[j].1.prio(), s[j].0) as usize));
        crate::registry::lemma_rank_below_count(s, i, d);
        crate::registry::lemma_rank_below_count(s, j, d);
        lemma_rank_monotone(s, d, i, s[j].1.prio(), s[j].0);
    }
}

/// Of two programs on one dispatcher, the one of lower priority stands
/// earlier, whichever was added first.
pub proof fn law_priority_order(v: ManagerView, i: int, j: int)
    requires
        v.wf(),
        0 <= i < v.programs.len(),
        0 <= j < v.programs.len(),
        v.programs[i].1.dispatcher() is Some,
        v.programs[i].1.dispatcher() == v.programs[j].1.dispatcher(),
        v.programs[i].1.prio() < v.programs[j].1.prio(),
    ensures
        v.programs[i].1.position().unwrap() < v.programs[j].1.position().unwrap(),
{
    law_positions_dense(v, v.programs[i].1.dispatcher().unwrap());
    let d = v.programs[i].1.dispatcher().unwrap();
    assert(on_key(v.programs[i], d) && on_key(v.programs[j], d));
}

/// A map group's owner is one of its members, so a group is never empty.
pub proof fn law_map_group_owner(v: ManagerView, g: u128)
    requires
        v.wf(),
        group_exists(v.programs, g),
    ensures
        used_by(v.programs, g).contains(g),
        used_by(v.programs, g).finite(),
        used_by(v.programs, g).len() >= 1,
{
    let s = v.programs;
    let k = choose|k: int| 0 <= k < s.len() && group_of(#[trigger] s[k]) == g;
    if s[k].1.map_owner() is None {
        assert(s[k].0 == g);
    } else {
        let j = choose|j: int| 0 <= j < s.len() && (#[trigger] s[j]).0 == g && s[j].1.map_owner() is None;
        assert(group_of(s[j]) == g);
    }
    let all = crate::registry::idx_set(s, |e: (u128, Program)| group_of(e) == g, s.len() as int);
    lemma_idx_finite(s, |e: (u128, Program)| group_of(e) == g, s.len() as int);
    let f = |i: int| s[i].0;
    assert(all.map(f) =~= used_by(s, g)) by {
        assert forall|u: u128| used_by(s, g).contains(u) implies all.map(f).contains(u) by {
            let i = choose|i: int| 0 <= i < s.len() && #[trigger] s[i].0 == u && group_of(s[i]) == g;
            assert(all.contains(i) && f(i) == u);
        }
    }
    lemma_map_size_bound(all, used_by(s, g), f);
    assert(used_by(s, g).remove(g).len() + 1 == used_by(s, g).len());
}

/// After an accepted add, dropping the program again gives back the
/// registry as it was.
proof fn lemma_add_then_drop(v: ManagerView, id: u128, p: Program)
    requires
        v.wf(),
        add_error(v.programs, p, id) is None,
    ensures
        index_of(spec_add(v, id, p).programs, id) == v.programs.len(),
        canonical(spec_add(v, id, p).programs.remove(v.programs.len() as int)) == v.programs,
        registered(spec_add(v, id, p).programs, id),
        !shared(spec_add(v, id, p).programs, id),
        spec_add(v, id, p).programs[v.programs.len() as int].1.spec_data() == p.spec_data(),
        spec_add(v, id, p).programs[v.programs.len() as int].1.dispatcher() == p.dispatcher(),
{
    let s = v.programs;
    let x = (id, p.with_attached(true));
    let t = s.push(x);
    let c = spec_add(v, id, p).programs;
    lemma_add_wf(v, id, p);
    lemma_with_attached(p, true);
    lemma_canonical_same(t);
    lemma_index_of(c, s.len() as int);
    let r = c.remove(s.len() as int);
    assert(same_but_positions(r, s)) by {
        assert forall|j: int| 0 <= j < r.len() implies (#[trigger] r[j]).0 == s[j].0 && r[j].1.with_position(None)
            == s[j].1.with_position(None) by {
            assert(r[j] == c[j]);
            assert(t[j] == s[j]);
        }
    }
    lemma_canonical_congruent(r, s);
    lemma_canonical_fixed(s);
    match c[s.len() as int].1.dispatcher() {
        Some(d) => {
            lemma_with_position(p.with_attached(true), None, Some(rank(t, d, t[s.len() as int].1.prio(), id) as usize));
        },
        None => {},
    }
    assert(!shared(c, id)) by {
        if shared(c, id) {
            let j = choose|j: int| 0 <= j < c.len() && (#[trigger] c[j]).0 != id && group_of(c[j]) == id;
            assert(j < s.len());
            assert(c[j].0 == s[j].0 && c[j].1.spec_data() == s[j].1.spec_data());
            if s[j].1.map_owner() is None {
                assert(registered(s, id));
            } else {
                let k = choose|k: int| 0 <= k < s.len() && (#[trigger] s[k]).0 == id && s[k].1.map_owner() is None;
                assert(registered(s, id));
            }
        }
    }
}

/// An add whose kernel side failed and was undone leaves the state exactly
/// as it was before the add.
pub proof fn law_failed_add_restores(v: ManagerView, id: u128, p: Program)
    requires
        v.wf(),
        add_error(v.programs, p, id) is None,
    ensures
        rollback_ok(
            spec_add(v, id, p),
            id,
            match p.dispatcher() {
                Some(d) => record_of(v.dispatchers, d),
                None => None,
            },
        ),
        spec_rollback(
            spec_add(v, id, p),
            id,
            match p.dispatcher() {
                Some(d) => record_of(v.dispatchers, d),
                None => None,
            },
        ) == v,
{
    let w = spec_add(v, id, p);
    lemma_add_wf(v, id, p);
    lemma_add_then_drop(v, id, p);
    let ds = v.dispatchers;
    match p.dispatcher() {
        Some(d) => {
            assert(count(w.programs, d) == count(v.programs, d) + 1);
            if has_dispatcher(ds, d) {
                let k = dispatcher_index(ds, d);
                crate::manager::lemma_dispatcher_index(w.dispatchers, k);
                assert(w.dispatchers.update(k, ds[k]) =~= ds);
            } else {
                crate::manager::lemma_dispatcher_index(w.dispatchers, ds.len() as int);
                assert(w.dispatchers.remove(ds.len() as int) =~= ds);
            }
        },
        None => {},
    }
}

/// Unloading a program right after adding it is allowed to its owner, and
/// gives back the registry, hence every map group, as it was; the
/// dispatcher records too, unless the dispatcher carries other programs
/// (it then moves on to a new revision).
pub proof fn law_unload_after_add(v: ManagerView, id: u128, p: Program)
    requires
        v.wf(),
        add_error(v.programs, p, id) is None,
    ensures
        remove_error(spec_add(v, id, p).programs, id, p.spec_data().owner@) is None,
        spec_remove(spec_add(v, id, p), id).programs == v.programs,
        forall|g: u128| #[trigger] used_by(spec_remove(spec_add(v, id, p), id).programs, g) == used_by(v.programs, g),
        (p.dispatcher() matches Some(d) ==> count(v.programs, d) == 0) ==> spec_remove(spec_add(v, id, p), id) == v,
{
    let w = spec_add(v, id, p);
    lemma_add_wf(v, id, p);
    lemma_add_then_drop(v, id, p);
    let ds = v.dispatchers;
    match p.dispatcher() {
        Some(d) => {
            assert(count(w.programs, d) == count(v.programs, d) + 1);
            if count(v.programs, d) == 0 {
                assert(!has_dispatcher(ds, d));
                crate::manager::lemma_dispatcher_index(w.dispatchers, ds.len() as int);
                assert(w.dispatchers.remove(ds.len() as int) =~= ds);
            }
        },
        None => {},
    }
}

/// A dispatcher that carries ten programs refuses another one, whatever
/// its priority; the refused add changes nothing.
pub proof fn law_eleventh_program_refused(v: ManagerView, p: Program, id: u128)
    requires
        v.wf(),
        p.dispatcher() is Some,
        count(v.programs, p.dispatcher().unwrap()) == MAX_DISPATCHER_PROGRAMS,
        !registered(v.programs, id),
        p.map_owner() matches Some(g) ==> group_exists(v.programs, g),
    ensures
        add_error(v.programs, p, id) == Some(BpfdError::TooManyPrograms),
{
}

/// A return probe with an offset is refused, whatever else it asks for,
/// once its id is free and its map group exists.
pub proof fn law_kretprobe_offset_refused(v: ManagerView, p: Program, id: u128)
    requires
        p matches Program::Kprobe(k) && k.info.retprobe && k.info.offset != 0,
        !registered(v.programs, id),
        p.map_owner() matches Some(g) ==> group_exists(v.programs, g),
    ensures
        add_error(v.programs, p, id) == Some(BpfdError::KretprobeOffsetNotAllowed),
{
}

} // verus!
