//! The errors the manager reports, with their wire codes.
use vstd::prelude::*;

verus! {

/// Errors reported to the clients of the manager.
#[derive(Debug, Clone, Copy, PartialEq, Eq, Structural)]
pub enum BpfdError {
    IdInUse,
    TooManyPrograms,
    InvalidInterface,
    SectionNameNotValid,
    DispatcherNotRequired,
    NotAuthorized,
    InvalidId,
    MapInUse,
    MapGroupMissing,
    InvalidAttach,
    KretprobeOffsetNotAllowed,
    ProbeKindMismatch,
    UnableToPinProgram,
    UnableToPinLink,
    BytecodeError,
    InternalError,
    InvalidRequest,
}

/// The stable textual code of each error on the wire.
pub open spec fn error_code(e: BpfdError) -> Seq<char> {
    match e {
        BpfdError::IdInUse => "id-in-use"@,
        BpfdError::TooManyPrograms => "too-many-programs"@,
        BpfdError::InvalidInterface => "invalid-interface"@,
        BpfdError::SectionNameNotValid => "section-not-valid"@,
        BpfdError::DispatcherNotRequired => "dispatcher-not-required"@,
        BpfdError::NotAuthorized => "not-authorised"@,
        BpfdError::InvalidId => "invalid-id"@,
        BpfdError::MapInUse => "map-in-use"@,
        BpfdError::MapGroupMissing => "map-group-missing"@,
        BpfdError::InvalidAttach => "invalid-attach"@,
        BpfdError::KretprobeOffsetNotAllowed => "kretprobe-offset-not-allowed"@,
        BpfdError::ProbeKindMismatch => "probe-kind-mismatch"@,
        BpfdError::UnableToPinProgram => "pin-program-failed"@,
        BpfdError::UnableToPinLink => "pin-link-failed"@,
        BpfdError::BytecodeError => "bytecode-error"@,
        BpfdError::InternalError => "internal-error"@,
        BpfdError::InvalidRequest => "invalid-request"@,
    }
}

impl BpfdError {
    /// The stable textual code of the error on the wire.
    pub fn code(&self) -> (r: &'static str)
        ensures
            r@ == error_code(*self),
    {
        match self {
            BpfdError::IdInUse => "id-in-use",
            BpfdError::TooManyPrograms => "too-many-programs",
            BpfdError::InvalidInterface => "invalid-interface",
            BpfdError::SectionNameNotValid => "section-not-valid",
            BpfdError::DispatcherNotRequired => "dispatcher-not-required",
            BpfdError::NotAuthorized => "not-authorised",
            BpfdError::InvalidId => "invalid-id",
            BpfdError::MapInUse => "map-in-use",
            BpfdError::MapGroupMissing => "map-group-missing",
            BpfdError::InvalidAttach => "invalid-attach",
            BpfdError::KretprobeOffsetNotAllowed => "kretprobe-offset-not-allowed",
            BpfdError::ProbeKindMismatch => "probe-kind-mismatch",
            BpfdError::UnableToPinProgram => "pin-program-failed",
            BpfdError::UnableToPinLink => "pin-link-failed",
            BpfdError::BytecodeError => "bytecode-error",
            BpfdError::InternalError => "internal-error",
            BpfdError::InvalidRequest => "invalid-request",
        }
    }
}

} // verus!
