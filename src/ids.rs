//! Program ids: their text form and random fresh ones.
use vstd::prelude::*;

verus! {

/// Lower-case hexadecimal digits.
pub open spec fn hex_digits() -> Seq<char> {
    seq!['0', '1', '2', '3', '4', '5', '6', '7', '8', '9', 'a', 'b', 'c', 'd', 'e', 'f']
}

/// The `i`-th of the 32 hexadecimal digits of an id, most significant first.
pub open spec fn nibble(id: u128, i: int) -> int {
    ((id >> (((31 - i) * 4) as u128)) & 0xfu128) as int
}

/// Which digit stands at place `j` of the hyphenated text: the places of
/// the four hyphens are skipped.
pub open spec fn digit_at(j: int) -> int {
    if j < 8 {
        j
    } else if j < 13 {
        j - 1
    } else if j < 18 {
        j - 2
    } else if j < 23 {
        j - 3
    } else {
        j - 4
    }
}

/// The hyphenated lower-case text of a program id: 36 characters, groups of
/// 8, 4, 4, 4 and 12 digits.
pub open spec fn uuid_text(id: u128) -> Seq<char> {
    Seq::new(
        36,
        |j: int|
            if j == 8 || j == 13 || j == 18 || j == 23 {
                '-'
            } else {
                hex_digits()[nibble(id, digit_at(j))]
            },
    )
}

/// The id that a text denotes, if it is a well-formed UUID in one of the
/// accepted notations.
pub uninterp spec fn parsed_uuid(s: Seq<char>) -> Option<u128>;

/// Relies on uuid's `Display` for `Uuid`, which writes the hyphenated
/// lower-case form of the id's bytes, most significant first.
#[verifier::external_body]
pub(crate) fn id_to_string(id: u128) -> (r: String)
    ensures
        r@ == uuid_text(id),
{
    uuid::Uuid::from_u128(id).to_string()
}

/// Relies on uuid::Uuid::parse_str: `Ok` for a well-formed UUID text, whose
/// value depends on the text alone. Only texts of 32 (simple), 36
/// (hyphenated), 38 (braced) or 45 (URN) characters are accepted, and the
/// hyphenated text of an id reads back as that id.
#[verifier::external_body]
pub(crate) fn parse_uuid(s: &str) -> (r: Option<u128>)
    ensures
        r == parsed_uuid(s@),
        !(s@.len() == 32 || s@.len() == 36 || s@.len() == 38 || s@.len() == 45) ==> r is None,
        forall|x: u128| s@ == #[trigger] uuid_text(x) ==> r == Some(x),
{
    match uuid::Uuid::parse_str(s) {
        Ok(u) => Some(u.as_u128()),
        Err(_) => None,
    }
}

/// Relies on uuid::Uuid::new_v4: a random id; nothing is known of its value.
#[verifier::external_body]
pub(crate) fn random_id() -> (r: u128) {
    uuid::Uuid::new_v4().as_u128()
}

/// Parses a program id given by a client.
pub fn parse_program_id(s: &str) -> (r: Result<u128, crate::errors::BpfdError>)
    ensures
        match parsed_uuid(s@) {
            Some(id) => r == Ok::<u128, crate::errors::BpfdError>(id),
            None => r == Err::<u128, crate::errors::BpfdError>(crate::errors::BpfdError::InvalidId),
        },
        !(s@.len() == 32 || s@.len() == 36 || s@.len() == 38 || s@.len() == 45) ==> r
            == Err::<u128, crate::errors::BpfdError>(crate::errors::BpfdError::InvalidId),
        forall|x: u128| s@ == #[trigger] uuid_text(x) ==> r == Ok::<u128, crate::errors::BpfdError>(x),
{
    match parse_uuid(s) {
        Some(id) => Ok(id),
        None => Err(crate::errors::BpfdError::InvalidId),
    }
}

/// The text of a program id, as used in file names and paths.
pub fn program_id_text(id: u128) -> (r: String)
    ensures
        r@ == uuid_text(id),
{
    id_to_string(id)
}

} // verus!
