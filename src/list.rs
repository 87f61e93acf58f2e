//! Listing and lookup of programs.
use vstd::prelude::*;
use crate::manager::{group_exists, group_of, BpfManager};
use crate::maps::{get_map_index, map_pin_path, map_pin_path_of};
use crate::program::{Program, ProgramType};

verus! {

/// Which programs a listing shows.
pub struct ListFilter {
    pub kind: Option<ProgramType>,
    /// Metadata pairs that a program must all carry.
    pub metadata: Vec<(String, String)>,
    /// Leave out programs that the kernel holds but the manager did not load.
    pub bpfman_only: bool,
}

/// A program the kernel reports, with its kind where the kind is one the
/// manager knows.
#[derive(Debug, Clone, Copy)]
pub struct KernelProgram {
    pub id: u32,
    pub kind: Option<ProgramType>,
}

/// One line of a listing.
pub enum ListedProgram {
    Registered { id: u128, map_pin_path: String, map_used_by: Vec<u128> },
    KernelOnly { kernel_id: u32 },
}

/// Every selector pair is among the metadata.
pub open spec fn metadata_match(sel: Seq<(String, String)>, md: Seq<(String, String)>) -> bool {
    forall|i: int| 0 <= i < sel.len() ==> pair_present(md, (#[trigger] sel[i]).0@, sel[i].1@)
}

/// The metadata holds the pair `key`, `value`.
pub open spec fn pair_present(md: Seq<(String, String)>, key: Seq<char>, value: Seq<char>) -> bool {
    exists|j: int| 0 <= j < md.len() && (#[trigger] md[j]).0@ == key && md[j].1@ == value
}

pub open spec fn selected(p: Program, kind: Option<ProgramType>, sel: Seq<(String, String)>) -> bool {
    (kind matches Some(k) ==> p.spec_kind() == k) && metadata_match(sel, p.spec_data().metadata@)
}

/// The ids of the registered programs a listing shows, in registry order.
pub open spec fn listed_ids(
    s: Seq<(u128, Program)>,
    kind: Option<ProgramType>,
    sel: Seq<(String, String)>,
) -> Seq<u128> {
    s.filter_map(|e: (u128, Program)| if selected(e.1, kind, sel) { Some(e.0) } else { None })
}

/// The members of map group `g` other than its owner, in registry order.
pub open spec fn members_besides_owner(s: Seq<(u128, Program)>, g: u128) -> Seq<u128> {
    s.filter_map(|e: (u128, Program)| if group_of(e) == g && e.0 != g { Some(e.0) } else { None })
}

/// Whether a registered program has the kernel id `kid`.
pub open spec fn known_kernel_id(s: Seq<(u128, Program)>, kid: u32) -> bool {
    exists|i: int|
        0 <= i < s.len() && ((#[trigger] s[i]).1.spec_data().kernel_info matches Some(ki) && ki.id == kid)
}

/// The kernel ids of the programs the manager did not load that a listing shows.
pub open spec fn listed_kernel_ids(
    s: Seq<(u128, Program)>,
    kernel: Seq<KernelProgram>,
    kind: Option<ProgramType>,
    sel: Seq<(String, String)>,
    bpfman_only: bool,
) -> Seq<u32> {
    kernel.filter_map(
        |k: KernelProgram|
            if !bpfman_only && sel.len() == 0 && (kind matches Some(t) ==> k.kind == Some(t))
                && !known_kernel_id(s, k.id) {
                Some(k.id)
            } else {
                None
            },
    )
}

fn metadata_matches(sel: &Vec<(String, String)>, md: &Vec<(String, String)>) -> (r: bool)
    ensures
        r == metadata_match(sel@, md@),
{
    let mut i: usize = 0;
    while i < sel.len()
        invariant
            i <= sel@.len(),
            forall|a: int| 0 <= a < i ==> pair_present(md@, (#[trigger] sel@[a]).0@, sel@[a].1@),
        decreases sel@.len() - i,
    {
        let mut j: usize = 0;
        let mut found = false;
        while j < md.len()
            invariant
                j <= md@.len(),
                i < sel@.len(),
                found ==> pair_present(md@, sel@[i as int].0@, sel@[i as int].1@),
                found ==> j == md@.len(),
                !found ==> forall|b: int|
                    0 <= b < j ==> !((#[trigger] md@[b]).0@ == sel@[i as int].0@ && md@[b].1@
                        == sel@[i as int].1@),
            decreases md@.len() - j,
        {
            if md[j].0 == sel[i].0 && md[j].1 == sel[i].1 {
                found = true;
                j = md.len();
            } else {
                j = j + 1;
            }
        }
        if !found {
            proof {
                assert(!pair_present(md@, sel@[i as int].0@, sel@[i as int].1@));
            }
            return false;
        }
        i = i + 1;
    }
    true
}

impl BpfManager {
    /// The record of program `id`.
    pub fn get_program(&self, id: u128) -> (r: Option<&Program>)
        ensures
            match r {
                Some(p) => exists|i: int|
                    0 <= i < self.programs@.len() && self.programs@[i].0 == id && self.programs@[i].1 == *p,
                None => !crate::registry::registered(self.programs@, id),
            },
    {
        match self.find_program(id) {
            Some(i) => Some(&self.programs[i].1),
            None => None,
        }
    }

    /// The members of map group `g` other than its owner, or `None` where
    /// the group does not exist.
    pub fn map_used_by(&self, g: u128) -> (r: Option<Vec<u128>>)
        ensures
            r is Some <==> group_exists(self.programs@, g),
            r matches Some(v) ==> v@ == members_besides_owner(self.programs@, g),
    {
        if self.map_group_exists(g) {
            Some(self.group_members(g))
        } else {
            None
        }
    }

    fn group_members(&self, g: u128) -> (r: Vec<u128>)
        ensures
            r@ == members_besides_owner(self.programs@, g),
    {
        let mut r: Vec<u128> = Vec::new();
        let mut i: usize = 0;
        while i < self.programs.len()
            invariant
                i <= self.programs@.len(),
                r@ == members_besides_owner(self.programs@.take(i as int), g),
            decreases self.programs@.len() - i,
        {
            let (_, group) = get_map_index(self.programs[i].0, self.programs[i].1.map_owner_id());
            proof {
                assert(self.programs@.take(i + 1).drop_last() =~= self.programs@.take(i as int));
            }
            if group == g && self.programs[i].0 != g {
                r.push(self.programs[i].0);
            }
            i = i + 1;
        }
        proof {
            assert(self.programs@.take(self.programs@.len() as int) =~= self.programs@);
        }
        r
    }

    fn kernel_id_known(&self, kid: u32) -> (r: bool)
        ensures
            r == known_kernel_id(self.programs@, kid),
    {
        let mut i: usize = 0;
        while i < self.programs.len()
            invariant
                i <= self.programs@.len(),
                forall|j: int|
                    0 <= j < i ==> !((#[trigger] self.programs@[j]).1.spec_data().kernel_info matches Some(ki)
                        && ki.id == kid),
            decreases self.programs@.len() - i,
        {
            match &self.programs[i].1.data().kernel_info {
                Some(ki) => {
                    if ki.id == kid {
                        return true;
                    }
                },
                None => {},
            }
            i = i + 1;
        }
        false
    }

    /// Lists the registered programs that pass the filter, with their map
    /// group, then the kernel's other programs that pass it.
    pub fn list_programs(&self, filter: &ListFilter, kernel: &Vec<KernelProgram>) -> (r: Vec<ListedProgram>)
        ensures
            ({
                let a = listed_ids(self.programs@, filter.kind, filter.metadata@);
                let b = listed_kernel_ids(
                    self.programs@,
                    kernel@,
                    filter.kind,
                    filter.metadata@,
                    filter.bpfman_only,
                );
                &&& r@.len() == a.len() + b.len()
                &&& forall|k: int|
                    0 <= k < a.len() ==> (#[trigger] r@[k] matches ListedProgram::Registered {
                        id,
                        map_pin_path,
                        map_used_by,
                    } && id == a[k] && exists|i: int|
                        0 <= i < self.programs@.len() && self.programs@[i].0 == id
                            && map_pin_path@ == map_pin_path_of(group_of(self.programs@[i]))
                            && map_used_by@ == members_besides_owner(
                            self.programs@,
                            group_of(self.programs@[i]),
                        ))
                &&& forall|k: int|
                    a.len() <= k < r@.len() ==> (#[trigger] r@[k] matches ListedProgram::KernelOnly {
                        kernel_id,
                    } && kernel_id == b[k - a.len()])
            }),
    {
        let ghost s = self.programs@;
        let ghost sel = filter.metadata@;
        let mut r: Vec<ListedProgram> = Vec::new();
        let mut i: usize = 0;
        while i < self.programs.len()
            invariant
                i <= s.len(),
                s == self.programs@,
                sel == filter.metadata@,
                r@.len() == listed_ids(s.take(i as int), filter.kind, sel).len(),
                forall|k: int|
                    0 <= k < r@.len() ==> (#[trigger] r@[k] matches ListedProgram::Registered {
                        id,
                        map_pin_path,
                        map_used_by,
                    } && id == listed_ids(s.take(i as int), filter.kind, sel)[k] && exists|j: int|
                        0 <= j < s.len() && s[j].0 == id && map_pin_path@ == map_pin_path_of(group_of(s[j]))
                            && map_used_by@ == members_besides_owner(s, group_of(s[j]))),
            decreases s.len() - i,
        {
            proof {
                assert(s.take(i + 1).drop_last() =~= s.take(i as int));
            }
            let p = &self.programs[i].1;
            let kind_ok = match filter.kind {
                Some(k) => p.kind() == k,
                None => true,
            };
            if kind_ok && metadata_matches(&filter.metadata, &p.data().metadata) {
                let id = self.programs[i].0;
                let (_, group) = get_map_index(id, p.map_owner_id());
                let path = map_pin_path(group);
                let used = self.group_members(group);
                r.push(ListedProgram::Registered { id, map_pin_path: path, map_used_by: used });
                proof {
                    assert(s[i as int].0 == id);
                }
            }
            i = i + 1;
        }
        proof {
            assert(s.take(s.len() as int) =~= s);
        }
        let ghost na = r@.len();
        let mut k: usize = 0;
        while k < kernel.len()
            invariant
                k <= kernel@.len(),
                s == self.programs@,
                sel == filter.metadata@,
                na == listed_ids(s, filter.kind, sel).len(),
                r@.len() == na + listed_kernel_ids(s, kernel@.take(k as int), filter.kind, sel, filter.bpfman_only).len(),
                forall|m: int|
                    0 <= m < na ==> (#[trigger] r@[m] matches ListedProgram::Registered {
                        id,
                        map_pin_path,
                        map_used_by,
                    } && id == listed_ids(s, filter.kind, sel)[m] && exists|j: int|
                        0 <= j < s.len() && s[j].0 == id && map_pin_path@ == map_pin_path_of(group_of(s[j]))
                            && map_used_by@ == members_besides_owner(s, group_of(s[j]))),
                forall|m: int|
                    na <= m < r@.len() ==> (#[trigger] r@[m] matches ListedProgram::KernelOnly {
                        kernel_id,
                    } && kernel_id == listed_kernel_ids(
                        s,
                        kernel@.take(k as int),
                        filter.kind,
                        sel,
                        filter.bpfman_only,
                    )[m - na]),
            decreases kernel@.len() - k,
        {
            proof {
                assert(kernel@.take(k + 1).drop_last() =~= kernel@.take(k as int));
            }
            let kp = kernel[k];
            let kind_ok = match filter.kind {
                Some(t) => match kp.kind {
                    Some(kk) => kk == t,
                    None => false,
                },
                None => true,
            };
            if !filter.bpfman_only && filter.metadata.len() == 0 && kind_ok && !self.kernel_id_known(kp.id) {
                r.push(ListedProgram::KernelOnly { kernel_id: kp.id });
            }
            k = k + 1;
        }
        proof {
            assert(kernel@.take(kernel@.len() as int) =~= kernel@);
        }
        r
    }
}

} // verus!
