//! Order of the programs within a dispatcher: counts, ranks and positions.
use vstd::prelude::*;
use vstd::set_lib::*;
use vstd::relations::injective_on;
use crate::program::{DispatcherId, Program};

verus! {

/// Whether the registry entry is attached through dispatcher `d`.
pub open spec fn on_key(e: (u128, Program), d: DispatcherId) -> bool {
    e.1.dispatcher() == Some(d)
}

/// The order of programs within one dispatcher: priority ascending, then id.
pub open spec fn precedes(prio_a: i32, id_a: u128, prio_b: i32, id_b: u128) -> bool {
    prio_a < prio_b || (prio_a == prio_b && id_a < id_b)
}

/// Indices below `n` of the entries that satisfy `pred`.
pub open spec fn idx_set(s: Seq<(u128, Program)>, pred: spec_fn((u128, Program)) -> bool, n: int) -> Set<int> {
    Set::new(|j: int| 0 <= j < n && pred(s[j]))
}

pub open spec fn key_pred(d: DispatcherId) -> spec_fn((u128, Program)) -> bool {
    |e: (u128, Program)| on_key(e, d)
}

pub open spec fn below_pred(d: DispatcherId, prio: i32, id: u128) -> spec_fn((u128, Program)) -> bool {
    |e: (u128, Program)| on_key(e, d) && precedes(e.1.prio(), e.0, prio, id)
}

/// Indices below `n` of the entries attached through `d`.
pub open spec fn key_set(s: Seq<(u128, Program)>, d: DispatcherId, n: int) -> Set<int> {
    idx_set(s, key_pred(d), n)
}

/// Indices below `n` of the entries attached through `d` that come before
/// a program of priority `prio` and id `id`.
pub open spec fn below_set(
    s: Seq<(u128, Program)>,
    d: DispatcherId,
    prio: i32,
    id: u128,
    n: int,
) -> Set<int> {
    idx_set(s, below_pred(d, prio, id), n)
}

/// The number of programs attached through `d`.
pub open spec fn count(s: Seq<(u128, Program)>, d: DispatcherId) -> nat {
    key_set(s, d, s.len() as int).len()
}

/// The position a program of priority `prio` and id `id` takes among those
/// attached through `d`.
pub open spec fn rank(s: Seq<(u128, Program)>, d: DispatcherId, prio: i32, id: u128) -> nat {
    below_set(s, d, prio, id, s.len() as int).len()
}

/// Every program id occurs once.
pub open spec fn ids_unique(s: Seq<(u128, Program)>) -> bool {
    forall|i: int, j: int| 0 <= i < s.len() && 0 <= j < s.len() && i != j ==> s[i].0 != s[j].0
}

pub open spec fn registered(s: Seq<(u128, Program)>, id: u128) -> bool {
    exists|i: int| 0 <= i < s.len() && s[i].0 == id
}

/// The entry with each multi-attach program placed at its rank.
pub open spec fn placed(s: Seq<(u128, Program)>, e: (u128, Program)) -> (u128, Program) {
    match e.1.dispatcher() {
        Some(d) => (e.0, e.1.with_position(Some(rank(s, d, e.1.prio(), e.0) as usize))),
        None => e,
    }
}

/// The registry with every multi-attach program placed at its rank.
pub open spec fn canonical(s: Seq<(u128, Program)>) -> Seq<(u128, Program)> {
    s.map_values(|e: (u128, Program)| placed(s, e))
}

/// Every multi-attach program stands at its rank.
pub open spec fn positions_canonical(s: Seq<(u128, Program)>) -> bool {
    forall|i: int|
        0 <= i < s.len() && (#[trigger] s[i]).1.dispatcher() is Some ==> s[i].1.position() == Some(
            rank(s, s[i].1.dispatcher().unwrap(), s[i].1.prio(), s[i].0) as usize,
        )
}

/// Two registries that agree on ids, dispatchers and priorities, entry by entry.
pub open spec fn same_slots(s: Seq<(u128, Program)>, t: Seq<(u128, Program)>) -> bool {
    s.len() == t.len() && forall|j: int|
        0 <= j < s.len() ==> (#[trigger] s[j]).0 == t[j].0 && s[j].1.dispatcher()
            == t[j].1.dispatcher() && s[j].1.prio() == t[j].1.prio()
}

pub proof fn lemma_index_set_finite(a: Set<int>, n: int)
    requires
        0 <= n,
        forall|j: int| a.contains(j) ==> 0 <= j < n,
    ensures
        a.finite(),
        a.len() <= n,
{
    lemma_int_range(0, n);
    lemma_len_subset(a, set_int_range(0, n));
}

pub proof fn lemma_idx_finite(s: Seq<(u128, Program)>, pred: spec_fn((u128, Program)) -> bool, n: int)
    requires
        0 <= n,
    ensures
        idx_set(s, pred, n).finite(),
        idx_set(s, pred, n).len() <= n,
{
    lemma_index_set_finite(idx_set(s, pred, n), n);
}

/// Appending an entry adds it to the sets whose predicate it meets.
pub proof fn lemma_idx_push(
    s: Seq<(u128, Program)>,
    x: (u128, Program),
    pred: spec_fn((u128, Program)) -> bool,
)
    ensures
        idx_set(s.push(x), pred, s.len() + 1int).len() == idx_set(s, pred, s.len() as int).len() + if pred(x) {
            1int
        } else {
            0int
        },
        forall|n: int| 0 <= n <= s.len() ==> #[trigger] idx_set(s.push(x), pred, n) == idx_set(s, pred, n),
{
    let n = s.len() as int;
    let a = idx_set(s, pred, n);
    lemma_idx_finite(s, pred, n);
    if pred(x) {
        assert(idx_set(s.push(x), pred, n + 1) =~= a.insert(n));
    } else {
        assert(idx_set(s.push(x), pred, n + 1) =~= a);
    }
    assert forall|m: int| 0 <= m <= s.len() implies #[trigger] idx_set(s.push(x), pred, m) == idx_set(s, pred, m) by {
        assert(idx_set(s.push(x), pred, m) =~= idx_set(s, pred, m));
    }
}

/// Removing an entry takes it out of the sets whose predicate it meets.
pub proof fn lemma_idx_remove(
    s: Seq<(u128, Program)>,
    i: int,
    pred: spec_fn((u128, Program)) -> bool,
)
    requires
        0 <= i < s.len(),
    ensures
        idx_set(s.remove(i), pred, s.len() - 1).len() + (if pred(s[i]) {
            1int
        } else {
            0int
        }) == idx_set(s, pred, s.len() as int).len(),
{
    let n = s.len() as int;
    let r = s.remove(i);
    let a = idx_set(r, pred, n - 1);
    let b = idx_set(s, pred, n);
    lemma_idx_finite(r, pred, n - 1);
    lemma_idx_finite(s, pred, n);
    let f = |j: int| if j < i { j } else { j + 1 };
    assert(a.map(f) =~= b.remove(i)) by {
        assert forall|k: int| b.remove(i).contains(k) implies a.map(f).contains(k) by {
            let j = if k < i { k } else { k - 1 };
            assert(a.contains(j) && f(j) == k);
        }
    }
    assert(injective_on(f, a));
    lemma_map_size(a, b.remove(i), f);
}

pub proof fn lemma_same_slots_sets(s: Seq<(u128, Program)>, t: Seq<(u128, Program)>)
    requires
        same_slots(s, t),
    ensures
        forall|d: DispatcherId, n: int|
            n <= s.len() ==> #[trigger] key_set(s, d, n) == key_set(t, d, n),
        forall|d: DispatcherId, p: i32, id: u128, n: int|
            n <= s.len() ==> #[trigger] below_set(s, d, p, id, n) == below_set(t, d, p, id, n),
{
    assert forall|d: DispatcherId, n: int| n <= s.len() implies #[trigger] key_set(s, d, n) == key_set(t, d, n) by {
        assert(key_set(s, d, n) =~= key_set(t, d, n));
    }
    assert forall|d: DispatcherId, p: i32, id: u128, n: int| n <= s.len() implies #[trigger]
        below_set(s, d, p, id, n) == below_set(t, d, p, id, n) by {
        assert(below_set(s, d, p, id, n) =~= below_set(t, d, p, id, n));
    }
}

/// A program comes after all those that precede it, and before the count.
pub proof fn lemma_rank_below_count(s: Seq<(u128, Program)>, i: int, d: DispatcherId)
    requires
        0 <= i < s.len(),
        on_key(s[i], d),
    ensures
        rank(s, d, s[i].1.prio(), s[i].0) < count(s, d),
{
    let n = s.len() as int;
    let ks = key_set(s, d, n);
    let bs = below_set(s, d, s[i].1.prio(), s[i].0, n);
    lemma_index_set_finite(ks, n);
    assert(bs.subset_of(ks.remove(i)));
    lemma_len_subset(bs, ks.remove(i));
}

/// Ranks follow the order of priority, then id.
pub proof fn lemma_rank_monotone(
    s: Seq<(u128, Program)>,
    d: DispatcherId,
    j: int,
    prio: i32,
    id: u128,
)
    requires
        0 <= j < s.len(),
        on_key(s[j], d),
        precedes(s[j].1.prio(), s[j].0, prio, id),
    ensures
        rank(s, d, s[j].1.prio(), s[j].0) < rank(s, d, prio, id),
{
    let n = s.len() as int;
    let lo = below_set(s, d, s[j].1.prio(), s[j].0, n);
    let hi = below_set(s, d, prio, id, n);
    lemma_index_set_finite(hi, n);
    assert(lo.subset_of(hi.remove(j)));
    lemma_len_subset(lo, hi.remove(j));
}

/// In a registry with unique ids and canonical positions, the positions of
/// the programs of one dispatcher are exactly `0 .. count`, each taken once,
/// in the order of priority and then id.
pub proof fn lemma_positions_dense(s: Seq<(u128, Program)>, d: DispatcherId)
    requires
        ids_unique(s),
    ensures
        key_set(s, d, s.len() as int).map(|i: int| rank(s, d, s[i].1.prio(), s[i].0) as int)
            == set_int_range(0, count(s, d) as int),
{
    let n = s.len() as int;
    let ks = key_set(s, d, n);
    let f = |i: int| rank(s, d, s[i].1.prio(), s[i].0) as int;
    let img = ks.map(f);
    let c = count(s, d) as int;
    lemma_index_set_finite(ks, n);
    assert forall|a: int, b: int| ks.contains(a) && ks.contains(b) && #[trigger] f(a) == #[trigger] f(
        b,
    ) implies a == b by {
        if a != b {
            if precedes(s[a].1.prio(), s[a].0, s[b].1.prio(), s[b].0) {
                lemma_rank_monotone(s, d, a, s[b].1.prio(), s[b].0);
            } else {
                lemma_rank_monotone(s, d, b, s[a].1.prio(), s[a].0);
            }
        }
    }
    lemma_map_size(ks, img, f);
    lemma_int_range(0, c);
    assert forall|x: int| img.contains(x) implies set_int_range(0, c).contains(x) by {
        let i = choose|i: int| ks.contains(i) && f(i) == x;
        lemma_rank_below_count(s, i, d);
    }
    lemma_subset_equality(img, set_int_range(0, c));
}

/// What setting a program's position keeps and changes.
pub proof fn lemma_with_position(p: Program, a: Option<usize>, b: Option<usize>)
    ensures
        p.with_position(a).dispatcher() == p.dispatcher(),
        p.with_position(a).prio() == p.prio(),
        p.with_position(a).spec_data() == p.spec_data(),
        p.with_position(a).is_attached() == p.is_attached(),
        p.with_position(a).spec_kind() == p.spec_kind(),
        p.with_position(a).with_position(b) == p.with_position(b),
        p.dispatcher() is Some ==> p.with_position(a).position() == a,
        p.with_position(p.position()) == p,
{
    match p {
        Program::Xdp(x) => {
            assert(p.with_position(x.info.current_position) == p);
        },
        Program::Tc(x) => {
            assert(p.with_position(x.info.current_position) == p);
        },
        _ => {},
    }
}

/// What marking a program as attached keeps and changes.
pub proof fn lemma_with_attached(p: Program, b: bool)
    ensures
        p.with_attached(b).dispatcher() == p.dispatcher(),
        p.with_attached(b).prio() == p.prio(),
        p.with_attached(b).spec_data() == p.spec_data(),
        p.with_attached(b).position() == p.position(),
        p.with_attached(b).spec_kind() == p.spec_kind(),
        p.with_attached(b).is_attached() == (b || p.dispatcher() is None),
{
}

/// Two registries that differ at most in the positions they record.
pub open spec fn same_but_positions(s: Seq<(u128, Program)>, t: Seq<(u128, Program)>) -> bool {
    s.len() == t.len() && forall|j: int|
        0 <= j < s.len() ==> (#[trigger] s[j]).0 == t[j].0 && s[j].1.with_position(None)
            == t[j].1.with_position(None)
}

pub proof fn lemma_same_but_positions_slots(s: Seq<(u128, Program)>, t: Seq<(u128, Program)>)
    requires
        same_but_positions(s, t),
    ensures
        same_slots(s, t),
        forall|j: int|
            0 <= j < s.len() ==> (#[trigger] s[j]).1.spec_data() == t[j].1.spec_data()
                && s[j].1.is_attached() == t[j].1.is_attached(),
{
    assert forall|j: int| 0 <= j < s.len() implies (#[trigger] s[j]).0 == t[j].0
        && s[j].1.dispatcher() == t[j].1.dispatcher() && s[j].1.prio() == t[j].1.prio()
        && s[j].1.spec_data() == t[j].1.spec_data() && s[j].1.is_attached()
        == t[j].1.is_attached() by {
        lemma_with_position(s[j].1, None, None);
        lemma_with_position(t[j].1, None, None);
    }
}

/// Placing programs changes nothing but their positions.
pub proof fn lemma_canonical_same(t: Seq<(u128, Program)>)
    ensures
        same_but_positions(canonical(t), t),
        same_slots(canonical(t), t),
        positions_canonical(canonical(t)),
        forall|j: int|
            0 <= j < t.len() ==> (#[trigger] canonical(t)[j]).1.spec_data() == t[j].1.spec_data()
                && canonical(t)[j].1.is_attached() == t[j].1.is_attached(),
{
    let c = canonical(t);
    assert forall|j: int| 0 <= j < t.len() implies (#[trigger] c[j]).0 == t[j].0 && c[j].1.with_position(None)
        == t[j].1.with_position(None) by {
        match t[j].1.dispatcher() {
            Some(d) => {
                lemma_with_position(t[j].1, Some(rank(t, d, t[j].1.prio(), t[j].0) as usize), None);
            },
            None => {},
        }
    }
    lemma_same_but_positions_slots(c, t);
    lemma_same_slots_sets(c, t);
    assert forall|i: int|
        0 <= i < c.len() && (#[trigger] c[i]).1.dispatcher() is Some implies c[i].1.position() == Some(
            rank(c, c[i].1.dispatcher().unwrap(), c[i].1.prio(), c[i].0) as usize,
        ) by {
        let d = t[i].1.dispatcher().unwrap();
        lemma_with_position(t[i].1, Some(rank(t, d, t[i].1.prio(), t[i].0) as usize), None);
    }
}

/// A registry whose positions are already canonical is left as it is.
pub proof fn lemma_canonical_fixed(s: Seq<(u128, Program)>)
    requires
        positions_canonical(s),
    ensures
        canonical(s) == s,
{
    assert forall|j: int| 0 <= j < s.len() implies #[trigger] canonical(s)[j] == s[j] by {
        lemma_with_position(s[j].1, None, None);
    }
    assert(canonical(s) =~= s);
}

/// Placing depends on nothing that positions hold.
pub proof fn lemma_canonical_congruent(s: Seq<(u128, Program)>, t: Seq<(u128, Program)>)
    requires
        same_but_positions(s, t),
    ensures
        canonical(s) == canonical(t),
{
    lemma_same_but_positions_slots(s, t);
    lemma_same_slots_sets(s, t);
    assert forall|j: int| 0 <= j < s.len() implies #[trigger] canonical(s)[j] == canonical(t)[j] by {
        match s[j].1.dispatcher() {
            Some(d) => {
                let r = Some(rank(s, d, s[j].1.prio(), s[j].0) as usize);
                lemma_with_position(s[j].1, None, r);
                lemma_with_position(t[j].1, None, r);
            },
            None => {
                lemma_with_position(s[j].1, None, None);
                lemma_with_position(t[j].1, None, None);
            },
        }
    }
    assert(canonical(s) =~= canonical(t));
}

/// Appending an entry leaves the other dispatchers' ranks as they were.
pub proof fn lemma_push_placed(s: Seq<(u128, Program)>, x: (u128, Program))
    requires
        positions_canonical(s),
    ensures
        forall|j: int|
            0 <= j < s.len() && (#[trigger] s[j]).1.dispatcher() != x.1.dispatcher() ==> placed(
                s.push(x),
                s[j],
            ) == s[j],
        x.1.dispatcher() is None ==> canonical(s.push(x)) == s.push(x),
{
    let t = s.push(x);
    assert forall|j: int| 0 <= j < s.len() && (#[trigger] s[j]).1.dispatcher() != x.1.dispatcher() implies placed(t, s[j]) == s[j] by {
        match s[j].1.dispatcher() {
            Some(d) => {
                lemma_idx_push(s, x, below_pred(d, s[j].1.prio(), s[j].0));
                lemma_with_position(s[j].1, None, None);
            },
            None => {},
        }
    }
    if x.1.dispatcher() is None {
        assert(canonical(t) =~= t) by {
            assert forall|j: int| 0 <= j < t.len() implies #[trigger] canonical(t)[j] == t[j] by {
                if j < s.len() {
                    assert(t[j] == s[j]);
                }
            }
        }
    }
}

/// Removing an entry leaves the other dispatchers' ranks as they were.
pub proof fn lemma_remove_placed(s: Seq<(u128, Program)>, i: int)
    requires
        positions_canonical(s),
        0 <= i < s.len(),
    ensures
        forall|j: int|
            0 <= j < s.len() - 1 && (#[trigger] s.remove(i)[j]).1.dispatcher() != s[i].1.dispatcher()
                ==> placed(s.remove(i), s.remove(i)[j]) == s.remove(i)[j],
        s[i].1.dispatcher() is None ==> canonical(s.remove(i)) == s.remove(i),
{
    let t = s.remove(i);
    assert forall|j: int| 0 <= j < s.len() - 1 && (#[trigger] t[j]).1.dispatcher() != s[i].1.dispatcher() implies placed(t, t[j]) == t[j] by {
        let sj = if j < i { j } else { j + 1 };
        assert(t[j] == s[sj]);
        match t[j].1.dispatcher() {
            Some(d) => {
                lemma_idx_remove(s, i, below_pred(d, t[j].1.prio(), t[j].0));
                lemma_with_position(t[j].1, None, None);
            },
            None => {},
        }
    }
    if s[i].1.dispatcher() is None {
        assert(canonical(t) =~= t);
    }
}

/// Counts the programs attached through `d`.
pub fn count_on(v: &Vec<(u128, Program)>, d: DispatcherId) -> (r: usize)
    ensures
        r as nat == count(v@, d),
        r <= v@.len(),
{
    let mut c: usize = 0;
    let mut i: usize = 0;
    proof {
        assert(key_set(v@, d, 0) =~= Set::empty());
    }
    while i < v.len()
        invariant
            i <= v@.len(),
            c <= i,
            key_set(v@, d, i as int).finite(),
            c as nat == key_set(v@, d, i as int).len(),
        decreases v@.len() - i,
    {
        let hit = match v[i].1.dispatcher_id() {
            Some(k) => k == d,
            None => false,
        };
        proof {
            if hit {
                assert(key_set(v@, d, i + 1) =~= key_set(v@, d, i as int).insert(i as int));
            } else {
                assert(key_set(v@, d, i + 1) =~= key_set(v@, d, i as int));
            }
        }
        if hit {
            c = c + 1;
        }
        i = i + 1;
    }
    c
}

/// The position a program of priority `prio` and id `id` takes in `d`.
pub fn rank_on(v: &Vec<(u128, Program)>, d: DispatcherId, prio: i32, id: u128) -> (r: usize)
    ensures
        r as nat == rank(v@, d, prio, id),
        r <= v@.len(),
{
    let mut c: usize = 0;
    let mut i: usize = 0;
    proof {
        assert(below_set(v@, d, prio, id, 0) =~= Set::empty());
    }
    while i < v.len()
        invariant
            i <= v@.len(),
            c <= i,
            below_set(v@, d, prio, id, i as int).finite(),
            c as nat == below_set(v@, d, prio, id, i as int).len(),
        decreases v@.len() - i,
    {
        let on = match v[i].1.dispatcher_id() {
            Some(k) => k == d,
            None => false,
        };
        let p = v[i].1.priority();
        let hit = on && (p < prio || (p == prio && v[i].0 < id));
        proof {
            if hit {
                assert(below_set(v@, d, prio, id, i + 1) =~= below_set(
                    v@,
                    d,
                    prio,
                    id,
                    i as int,
                ).insert(i as int));
            } else {
                assert(below_set(v@, d, prio, id, i + 1) =~= below_set(v@, d, prio, id, i as int));
            }
        }
        if hit {
            c = c + 1;
        }
        i = i + 1;
    }
    c
}

/// Places every program of dispatcher `d` at its rank.
pub fn sort_programs(v: &mut Vec<(u128, Program)>, d: DispatcherId)
    ensures
        final(v)@.len() == old(v)@.len(),
        same_slots(final(v)@, old(v)@),
        forall|j: int|
            0 <= j < old(v)@.len() ==> #[trigger] final(v)@[j] == if on_key(old(v)@[j], d) {
                placed(old(v)@, old(v)@[j])
            } else {
                old(v)@[j]
            },
{
    let ghost s0 = v@;
    let mut i: usize = 0;
    while i < v.len()
        invariant
            v@.len() == s0.len(),
            i <= v@.len(),
            same_slots(v@, s0),
            forall|j: int|
                0 <= j < i ==> #[trigger] v@[j] == if on_key(s0[j], d) {
                    placed(s0, s0[j])
                } else {
                    s0[j]
                },
            forall|j: int| i <= j < v@.len() ==> #[trigger] v@[j] == s0[j],
        decreases v@.len() - i,
    {
        let on = match v[i].1.dispatcher_id() {
            Some(k) => k == d,
            None => false,
        };
        if on {
            let r = rank_on(v, d, v[i].1.priority(), v[i].0);
            proof {
                lemma_same_slots_sets(v@, s0);
            }
            let mut e = v.remove(i);
            e.1.set_position(Some(r));
            v.insert(i, e);
            proof {
                assert forall|j: int| 0 <= j < v@.len() implies #[trigger] v@[j].0 == s0[j].0
                    && v@[j].1.dispatcher() == s0[j].1.dispatcher() && v@[j].1.prio()
                    == s0[j].1.prio() by {}
            }
        }
        i = i + 1;
    }
}

/// Places every multi-attach program at its rank.
pub fn place_all(v: &mut Vec<(u128, Program)>)
    ensures
        final(v)@ == canonical(old(v)@),
{
    let ghost s0 = v@;
    let mut i: usize = 0;
    while i < v.len()
        invariant
            v@.len() == s0.len(),
            i <= v@.len(),
            same_slots(v@, s0),
            forall|j: int| 0 <= j < i ==> #[trigger] v@[j] == placed(s0, s0[j]),
            forall|j: int| i <= j < v@.len() ==> #[trigger] v@[j] == s0[j],
        decreases v@.len() - i,
    {
        match v[i].1.dispatcher_id() {
            Some(d) => {
                let r = rank_on(v, d, v[i].1.priority(), v[i].0);
                proof {
                    lemma_same_slots_sets(v@, s0);
                }
                let mut e = v.remove(i);
                e.1.set_position(Some(r));
                v.insert(i, e);
                proof {
                    assert forall|j: int| 0 <= j < v@.len() implies #[trigger] v@[j].0 == s0[j].0
                        && v@[j].1.dispatcher() == s0[j].1.dispatcher() && v@[j].1.prio()
                        == s0[j].1.prio() by {}
                }
            },
            None => {},
        }
        i = i + 1;
    }
    proof {
        assert(v@ =~= canonical(s0));
    }
}

} // verus!
