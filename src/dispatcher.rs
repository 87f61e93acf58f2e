//! Dispatcher revisions: slot configuration, proceed-on masks, teardown of the old revision, record file names.
use vstd::prelude::*;
use crate::errors::BpfdError;
use crate::manager::{index_of, lemma_index_of, BpfManager, DispatcherRecord, ReconcilePlan};
use crate::registry::registered;
use crate::program::{DispatcherId, Program};

verus! {

/// The run priority of a dispatcher slot that no program uses.
pub const DEFAULT_PRIORITY: u32 = 50;

/// The run priority a slot carries for a program of priority `prio`:
/// the priority itself, with negative ones raised to 0.
pub open spec fn slot_priority(prio: i32) -> u32 {
    if prio < 0 {
        0
    } else {
        prio as u32
    }
}

/// The number of extension slots of a dispatcher.
pub const MAX_SLOTS: usize = 10;

/// Whether bit `b` of `m` is set.
pub open spec fn bit_set(m: u32, b: u32) -> bool {
    (m >> b) & 1u32 == 1u32
}

/// The proceed-on mask of a list of action bits.
pub open spec fn mask_of(bits: Seq<u32>) -> u32
    decreases bits.len(),
{
    if bits.len() == 0 {
        0
    } else {
        mask_of(bits.drop_last()) | (1u32 << bits.last())
    }
}

proof fn lemma_or_bit(m: u32, a: u32, b: u32)
    requires
        a < 32,
        b < 32,
    ensures
        bit_set(m | (1u32 << a), b) == (bit_set(m, b) || a == b),
{
    assert(((m | (1u32 << a)) >> b) & 1u32 == 1u32 <==> (((m >> b) & 1u32 == 1u32) || a == b))
        by (bit_vector)
        requires
            a < 32,
            b < 32,
    ;
}

proof fn lemma_zero_bits(b: u32)
    requires
        b < 32,
    ensures
        !bit_set(0, b),
{
    assert((0u32 >> b) & 1u32 != 1u32) by (bit_vector)
        requires
            b < 32,
    ;
}

/// The bits of the mask are exactly the listed actions.
pub proof fn lemma_mask_bits(bits: Seq<u32>, b: u32)
    requires
        forall|i: int| 0 <= i < bits.len() ==> bits[i] < 32,
        b < 32,
    ensures
        bit_set(mask_of(bits), b) == bits.contains(b),
    decreases bits.len(),
{
    if bits.len() == 0 {
        lemma_zero_bits(b);
    } else {
        lemma_mask_bits(bits.drop_last(), b);
        lemma_or_bit(mask_of(bits.drop_last()), bits.last(), b);
        if bits.drop_last().contains(b) {
            let i = choose|i: int| 0 <= i < bits.drop_last().len() && bits.drop_last()[i] == b;
            assert(bits[i] == b);
        }
        if bits.contains(b) && bits.last() != b {
            let i = choose|i: int| 0 <= i < bits.len() && bits[i] == b;
            assert(bits.drop_last()[i] == b);
        }
    }
}

/// Folds a program's proceed-on action bits into the mask a dispatcher slot uses.
pub fn proceed_on_mask(bits: &Vec<u32>) -> (r: Result<u32, BpfdError>)
    ensures
        r is Ok <==> forall|i: int| 0 <= i < bits@.len() ==> bits@[i] < 32,
        r matches Ok(m) ==> m == mask_of(bits@) && forall|b: u32| b < 32 ==> (bit_set(m, b) <==> #[trigger] bits@.contains(b)),
        r matches Err(e) ==> e == BpfdError::InvalidRequest,
{
    let mut m: u32 = 0;
    let mut i: usize = 0;
    while i < bits.len()
        invariant
            i <= bits@.len(),
            forall|j: int| 0 <= j < i ==> bits@[j] < 32,
            m == mask_of(bits@.take(i as int)),
        decreases bits@.len() - i,
    {
        if bits[i] >= 32 {
            return Err(BpfdError::InvalidRequest);
        }
        proof {
            assert(bits@.take(i + 1).drop_last() =~= bits@.take(i as int));
        }
        m = m | (1u32 << bits[i]);
        i = i + 1;
    }
    proof {
        assert(bits@.take(bits@.len() as int) =~= bits@);
        assert forall|b: u32| b < 32 implies (bit_set(m, b) <==> #[trigger] bits@.contains(b)) by {
            lemma_mask_bits(bits@, b);
        }
    }
    Ok(m)
}

/// The configuration baked into a dispatcher revision.
#[derive(Debug)]
pub struct DispatcherConfig {
    pub num_progs_enabled: u8,
    /// Per slot, the return codes on which the next slot runs.
    pub chain_call_actions: Vec<u32>,
    pub run_prios: Vec<u32>,
}

/// The proceed-on action bits of an XDP or TC program.
pub open spec fn proceed_bits(p: Program) -> Seq<u32> {
    match p {
        Program::Xdp(x) => x.info.proceed_on@,
        Program::Tc(x) => x.info.proceed_on@,
        _ => Seq::empty(),
    }
}

pub open spec fn bits_valid(bits: Seq<u32>) -> bool {
    forall|i: int| 0 <= i < bits.len() ==> bits[i] < 32
}

fn proceed_on_of(p: &Program) -> (r: Option<&Vec<u32>>)
    ensures
        match r {
            Some(v) => v@ == proceed_bits(*p),
            None => proceed_bits(*p) == Seq::<u32>::empty(),
        },
{
    match p {
        Program::Xdp(x) => Some(&x.info.proceed_on),
        Program::Tc(x) => Some(&x.info.proceed_on),
        _ => None,
    }
}

/// The program registered under `id`.
pub open spec fn program_of(s: Seq<(u128, Program)>, id: u128) -> Program {
    s[index_of(s, id)].1
}

/// Every slot of the plan holds a registered program with valid action bits.
pub open spec fn config_ok(s: Seq<(u128, Program)>, plan: ReconcilePlan) -> bool {
    forall|k: int|
        0 <= k < plan.extensions@.len() ==> registered(s, (#[trigger] plan.extensions@[k]).id)
            && bits_valid(proceed_bits(program_of(s, plan.extensions@[k].id)))
}

impl BpfManager {
    /// The configuration of the dispatcher revision that `plan` builds:
    /// each used slot runs on its program's proceed-on mask and carries a
    /// copy of its program's priority.
    pub fn dispatcher_config(&self, plan: &ReconcilePlan) -> (r: Result<DispatcherConfig, BpfdError>)
        requires
            self@.wf(),
            plan.extensions@.len() <= MAX_SLOTS,
        ensures
            r is Ok <==> config_ok(self.programs@, *plan),
            r matches Err(e) ==> e == BpfdError::InvalidRequest,
            r matches Ok(c) ==> {
                &&& c.num_progs_enabled as int == plan.extensions@.len()
                &&& c.chain_call_actions@.len() == MAX_SLOTS
                &&& c.run_prios@.len() == MAX_SLOTS
                &&& forall|k: int|
                    0 <= k < MAX_SLOTS ==> #[trigger] c.run_prios@[k] == if k < plan.extensions@.len() {
                        slot_priority(program_of(self.programs@, plan.extensions@[k].id).prio())
                    } else {
                        DEFAULT_PRIORITY
                    }
                &&& forall|k: int|
                    0 <= k < MAX_SLOTS ==> #[trigger] c.chain_call_actions@[k] == if k < plan.extensions@.len() {
                        mask_of(proceed_bits(program_of(self.programs@, plan.extensions@[k].id)))
                    } else {
                        0u32
                    }
            },
    {
        let n = plan.extensions.len();
        let mut chain: Vec<u32> = Vec::new();
        let mut prios: Vec<u32> = Vec::new();
        let mut k: usize = 0;
        while k < MAX_SLOTS
            invariant
                k <= MAX_SLOTS,
                n == plan.extensions@.len(),
                n <= MAX_SLOTS,
                self@.wf(),
                chain@.len() == k,
                prios@.len() == k,
                forall|j: int|
                    0 <= j < k ==> #[trigger] prios@[j] == if j < n {
                        slot_priority(program_of(self.programs@, plan.extensions@[j].id).prio())
                    } else {
                        DEFAULT_PRIORITY
                    },
                forall|j: int|
                    0 <= j < k ==> #[trigger] chain@[j] == if j < n {
                        mask_of(proceed_bits(program_of(self.programs@, plan.extensions@[j].id)))
                    } else {
                        0u32
                    },
                forall|j: int|
                    0 <= j < k && j < n ==> registered(self.programs@, (#[trigger] plan.extensions@[j]).id)
                        && bits_valid(proceed_bits(program_of(self.programs@, plan.extensions@[j].id))),
            decreases MAX_SLOTS - k,
        {
            if k < n {
                let id = plan.extensions[k].id;
                let i = match self.find_program(id) {
                    Some(i) => i,
                    None => {
                        return Err(BpfdError::InvalidRequest);
                    },
                };
                proof {
                    lemma_index_of(self.programs@, i as int);
                }
                let m = match proceed_on_of(&self.programs[i].1) {
                    Some(bits) => match proceed_on_mask(bits) {
                        Ok(m) => m,
                        Err(e) => {
                            return Err(e);
                        },
                    },
                    None => 0,
                };
                chain.push(m);
                let prio = self.programs[i].1.priority();
                prios.push(if prio < 0 { 0 } else { prio as u32 });
            } else {
                chain.push(0);
                prios.push(DEFAULT_PRIORITY);
            }
            k = k + 1;
        }
        Ok(DispatcherConfig { num_progs_enabled: n as u8, chain_call_actions: chain, run_prios: prios })
    }
}

/// Whether replacing `old` must detach it from the hook. A TC revision that
/// the kernel attached under the old handle took its place already: only
/// its traces are removed then.
pub fn must_detach_old(old: &DispatcherRecord, new_handle: Option<u32>) -> (r: bool)
    ensures
        r == match old.id {
            DispatcherId::Xdp { .. } => true,
            DispatcherId::Tc { .. } => old.handle != new_handle,
        },
{
    match old.id {
        DispatcherId::Xdp { .. } => true,
        DispatcherId::Tc { .. } => !(old.handle == new_handle),
    }
}

pub open spec fn is_digit(c: char) -> bool {
    '0' <= c && c <= '9'
}

pub open spec fn all_digits(s: Seq<char>) -> bool {
    forall|i: int| 0 <= i < s.len() ==> is_digit(#[trigger] s[i])
}

/// The number a string of decimal digits denotes.
pub open spec fn digits_value(s: Seq<char>) -> nat
    decreases s.len(),
{
    if s.len() == 0 {
        0
    } else {
        digits_value(s.drop_last()) * 10 + (s.last() as nat - '0' as nat) as nat
    }
}

/// A non-empty string of decimal digits whose value fits in 32 bits.
pub open spec fn decimal_u32(s: Seq<char>) -> Option<u32> {
    if 0 < s.len() && all_digits(s) && digits_value(s) <= u32::MAX {
        Some(digits_value(s) as u32)
    } else {
        None
    }
}

/// `k` is the one place of `c` in `t`.
pub open spec fn sole_index(t: Seq<char>, c: char, k: int) -> bool {
    0 <= k < t.len() && t[k] == c && forall|j: int| 0 <= j < t.len() && j != k ==> t[j] != c
}

/// The interface index and revision that a dispatcher record's file name,
/// `<if_index>_<revision>`, gives.
pub open spec fn dispatcher_file_name(t: Seq<char>) -> Option<(u32, u32)> {
    if exists|k: int| sole_index(t, '_', k) {
        let k = choose|k: int| sole_index(t, '_', k);
        match (decimal_u32(t.subrange(0, k)), decimal_u32(t.subrange(k + 1, t.len() as int))) {
            (Some(a), Some(b)) => Some((a, b)),
            _ => None,
        }
    } else {
        None
    }
}

proof fn lemma_digits_prefix(s: Seq<char>, n: int)
    requires
        0 <= n <= s.len(),
        all_digits(s),
    ensures
        digits_value(s.subrange(0, n)) <= digits_value(s),
    decreases s.len(),
{
    if n < s.len() {
        let d = s.drop_last();
        assert(all_digits(d)) by {
            assert forall|i: int| 0 <= i < d.len() implies is_digit(#[trigger] d[i]) by {
                assert(d[i] == s[i]);
            }
        }
        lemma_digits_prefix(d, n);
        assert(d.subrange(0, n) =~= s.subrange(0, n));
    } else {
        assert(s.subrange(0, n) =~= s);
    }
}

/// The value of the digits of `s` from `from` to `to`.
fn parse_decimal(s: &str, from: usize, to: usize) -> (r: Option<u32>)
    requires
        from <= to <= s@.len(),
    ensures
        r == decimal_u32(s@.subrange(from as int, to as int)),
{
    let ghost sub = s@.subrange(from as int, to as int);
    if from == to {
        return None;
    }
    let mut v: u64 = 0;
    let mut i: usize = from;
    while i < to
        invariant
            from <= i <= to,
            to <= s@.len(),
            sub == s@.subrange(from as int, to as int),
            all_digits(s@.subrange(from as int, i as int)),
            v as nat == digits_value(s@.subrange(from as int, i as int)),
            v <= u32::MAX,
        decreases to - i,
    {
        let c = s.get_char(i);
        proof {
            assert(s@.subrange(from as int, i + 1).drop_last() =~= s@.subrange(from as int, i as int));
            assert(sub[i - from] == c);
        }
        if !('0' <= c && c <= '9') {
            proof {
                assert(!all_digits(sub));
            }
            return None;
        }
        let d = (c as u32 - '0' as u32) as u64;
        v = v * 10 + d;
        proof {
            assert(all_digits(s@.subrange(from as int, i + 1))) by {
                let p = s@.subrange(from as int, i + 1);
                assert forall|j: int| 0 <= j < p.len() implies is_digit(#[trigger] p[j]) by {
                    if j < i - from {
                        assert(p[j] == s@.subrange(from as int, i as int)[j]);
                    }
                }
            }
        }
        if v > 0xffff_ffffu64 {
            proof {
                if all_digits(sub) {
                    lemma_digits_prefix(sub, i + 1 - from);
                    assert(sub.subrange(0, i + 1 - from) =~= s@.subrange(from as int, i + 1));
                }
            }
            return None;
        }
        i = i + 1;
    }
    proof {
        assert(s@.subrange(from as int, to as int) =~= sub);
    }
    Some(v as u32)
}

/// Reads the interface index and the revision out of the file name of a
/// dispatcher record.
pub fn parse_dispatcher_file_name(name: &str) -> (r: Option<(u32, u32)>)
    ensures
        r == dispatcher_file_name(name@),
{
    let len = name.unicode_len();
    let mut i: usize = 0;
    let mut found: usize = 0;
    let mut first: usize = 0;
    let mut second: usize = 0;
    while i < len
        invariant
            len == name@.len(),
            i <= len,
            found <= 2,
            found == 0 ==> forall|j: int| 0 <= j < i ==> name@[j] != '_',
            found >= 1 ==> first < i && name@[first as int] == '_',
            found == 1 ==> forall|j: int| 0 <= j < i && j != first ==> name@[j] != '_',
            found == 2 ==> second < i && second != first && name@[second as int] == '_',
        decreases len - i,
    {
        if name.get_char(i) == '_' {
            if found == 0 {
                first = i;
                found = 1;
            } else if found == 1 {
                second = i;
                found = 2;
            }
        }
        i = i + 1;
    }
    if found != 1 {
        proof {
            if found == 2 {
                assert forall|k: int| !sole_index(name@, '_', k) by {
                    if sole_index(name@, '_', k) {
                        if k == first {
                            assert(name@[second as int] == '_');
                        } else {
                            assert(name@[first as int] == '_');
                        }
                    }
                }
            }
        }
        return None;
    }
    proof {
        assert(sole_index(name@, '_', first as int));
        let k = choose|k: int| sole_index(name@, '_', k);
        assert(k == first);
    }
    match (parse_decimal(name, 0, first), parse_decimal(name, first + 1, len)) {
        (Some(a), Some(b)) => Some((a, b)),
        _ => None,
    }
}

} // verus!
