//! Map groups: which group a program belongs to and where its maps are pinned.
use vstd::prelude::*;
use vstd::string::*;
use crate::ids::{id_to_string, uuid_text};

verus! {

/// Directory under which each map group pins its maps.
pub const RTDIR_FS_MAPS: &'static str = "/run/bpfd/fs/maps";

/// The group a program's maps belong to: its own id unless it names a map
/// owner. The flag says whether the program owns the group.
pub open spec fn map_index(id: u128, map_owner_id: Option<u128>) -> (bool, u128) {
    match map_owner_id {
        Some(owner) => (false, owner),
        None => (true, id),
    }
}

/// The pin directory of a map group.
pub open spec fn map_pin_path_of(group: u128) -> Seq<char> {
    RTDIR_FS_MAPS@ + "/"@ + uuid_text(group)
}

pub fn get_map_index(id: u128, map_owner_id: Option<u128>) -> (r: (bool, u128))
    ensures
        r == map_index(id, map_owner_id),
{
    match map_owner_id {
        Some(owner) => (false, owner),
        None => (true, id),
    }
}

pub fn map_pin_path(group: u128) -> (r: String)
    ensures
        r@ == map_pin_path_of(group),
{
    let mut path = String::from_str(RTDIR_FS_MAPS);
    path.append("/");
    let text = id_to_string(group);
    path.append(text.as_str());
    path
}

/// Whether the program owns its map group, and the group's pin directory.
pub fn calc_map_pin_path(id: u128, map_owner_id: Option<u128>) -> (r: (bool, String))
    ensures
        r.0 == map_index(id, map_owner_id).0,
        r.1@ == map_pin_path_of(map_index(id, map_owner_id).1),
{
    let (owner, group) = get_map_index(id, map_owner_id);
    (owner, map_pin_path(group))
}

} // verus!
