//! Checks of attach parameters: tracepoint names, return-probe offsets, probe flavours.
use vstd::prelude::*;
use vstd::string::*;
use crate::errors::BpfdError;
use crate::program::Program;

verus! {

/// A tracepoint attach point names a category and an event, `category/name`:
/// exactly one `/`.
pub open spec fn one_slash(t: Seq<char>) -> bool {
    exists|k: int|
        0 <= k < t.len() && t[k] == '/' && forall|j: int|
            0 <= j < t.len() && j != k ==> t[j] != '/'
}

/// The probe flavours the kernel distinguishes.
#[derive(Debug, Clone, Copy, PartialEq, Eq, Structural)]
pub enum ProbeType {
    Kprobe,
    Kretprobe,
    Uprobe,
    Uretprobe,
}

/// Why a program's attach parameters cannot be used, if they cannot.
pub open spec fn attach_error(p: Program) -> Option<BpfdError> {
    match p {
        Program::Tracepoint(t) => if one_slash(t.info.tracepoint@) {
            None
        } else {
            Some(BpfdError::InvalidAttach)
        },
        Program::Kprobe(k) => if k.info.retprobe && k.info.offset != 0 {
            Some(BpfdError::KretprobeOffsetNotAllowed)
        } else {
            None
        },
        _ => None,
    }
}

/// Splits a tracepoint attach point into its category and its event name.
pub fn parse_tracepoint(s: &str) -> (r: Result<(String, String), BpfdError>)
    ensures
        r is Ok <==> one_slash(s@),
        r matches Err(e) ==> e == BpfdError::InvalidAttach,
        r matches Ok(parts) ==> parts.0@ + seq!['/'] + parts.1@ == s@ && !parts.0@.contains('/')
            && !parts.1@.contains('/'),
{
    let len = s.unicode_len();
    let mut i: usize = 0;
    let mut found: usize = 0;
    let mut first: usize = 0;
    let mut second: usize = 0;
    while i < len
        invariant
            len == s@.len(),
            i <= len,
            found <= 2,
            found == 0 ==> forall|j: int| 0 <= j < i ==> s@[j] != '/',
            found >= 1 ==> first < i && s@[first as int] == '/',
            found == 1 ==> forall|j: int| 0 <= j < i && j != first ==> s@[j] != '/',
            found == 2 ==> second < i && second != first && s@[second as int] == '/',
        decreases len - i,
    {
        let c = s.get_char(i);
        if c == '/' {
            if found == 0 {
                first = i;
                found = 1;
            } else if found == 1 {
                second = i;
                found = 2;
            }
        }
        i = i + 1;
    }
    if found != 1 {
        proof {
            if found == 2 {
                assert forall|k: int|
                    0 <= k < s@.len() && s@[k] == '/' implies exists|j: int|
                    0 <= j < s@.len() && j != k && s@[j] == '/' by {
                    if k == first {
                        assert(s@[second as int] == '/');
                    } else {
                        assert(s@[first as int] == '/');
                    }
                }
            }
        }
        return Err(BpfdError::InvalidAttach);
    }
    let category = s.substring_char(0, first);
    let name = s.substring_char(first + 1, len);
    proof {
        assert(category@ + seq!['/'] + name@ =~= s@);
        assert(one_slash(s@));
        assert forall|j: int| 0 <= j < category@.len() implies category@[j] != '/' by {
            assert(category@[j] == s@[j]);
        }
        assert forall|j: int| 0 <= j < name@.len() implies name@[j] != '/' by {
            assert(name@[j] == s@[first + 1 + j]);
        }
    }
    Ok((String::from_str(category), String::from_str(name)))
}

/// Rejects attach parameters that cannot be used: a tracepoint that is not
/// `category/name`, a return probe with an offset.
pub fn check_attach(p: &Program) -> (r: Result<(), BpfdError>)
    ensures
        r is Err <==> attach_error(*p) is Some,
        r matches Err(e) ==> attach_error(*p) == Some(e),
{
    match p {
        Program::Tracepoint(t) => {
            match parse_tracepoint(t.info.tracepoint.as_str()) {
                Ok(_) => Ok(()),
                Err(e) => Err(e),
            }
        },
        Program::Kprobe(k) => {
            if k.info.retprobe && k.info.offset != 0 {
                Err(BpfdError::KretprobeOffsetNotAllowed)
            } else {
                Ok(())
            }
        },
        _ => Ok(()),
    }
}

/// The probe flavour a program asks for.
pub open spec fn spec_requested_probe(p: Program) -> Option<ProbeType> {
    match p {
        Program::Kprobe(k) => Some(if k.info.retprobe { ProbeType::Kretprobe } else { ProbeType::Kprobe }),
        Program::Uprobe(u) => Some(if u.info.retprobe { ProbeType::Uretprobe } else { ProbeType::Uprobe }),
        _ => None,
    }
}

pub fn requested_probe_type(p: &Program) -> (r: Option<ProbeType>)
    ensures
        r == spec_requested_probe(*p),
{
    match p {
        Program::Kprobe(k) => Some(if k.info.retprobe { ProbeType::Kretprobe } else { ProbeType::Kprobe }),
        Program::Uprobe(u) => Some(if u.info.retprobe { ProbeType::Uretprobe } else { ProbeType::Uprobe }),
        _ => None,
    }
}

/// Compares the probe flavour the kernel loaded with the one that was asked for.
pub fn check_probe_kind(p: &Program, loaded: ProbeType) -> (r: Result<(), BpfdError>)
    ensures
        r is Ok <==> (spec_requested_probe(*p) matches Some(t) ==> t == loaded),
        r matches Err(e) ==> e == BpfdError::ProbeKindMismatch,
{
    match requested_probe_type(p) {
        Some(t) => if t == loaded {
            Ok(())
        } else {
            Err(BpfdError::ProbeKindMismatch)
        },
        None => Ok(()),
    }
}

} // verus!
