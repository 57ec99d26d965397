//! Error values shared by every pipeline stage.

use vstd::prelude::*;

verus! {

/// Kind of error a pipeline stage can signal.
#[derive(Clone, Copy, PartialEq, Eq, Structural, Debug)]
pub enum DatumErrorKind {
    /// Ran out of room in a caller-supplied buffer. Never produced by the
    /// stages in this crate, which write into growable buffers.
    OutOfRoom,
    /// Input ended while a construct was incomplete. Feeding more input and
    /// retrying is the intended recovery.
    Interrupted,
    /// Input is permanently invalid at the reported offset.
    BadData,
    /// Reserved for adapter layers; never produced by the stages in this
    /// crate.
    Custom,
}

/// Diagnostic offset. Units are caller-defined; stages forward offsets
/// without reinterpreting them.
pub type DatumOffset = u64;

/// Error raised by a pipeline stage while reading Datum text.
///
/// Contracts in this crate speak only of the kind and the offset (see
/// [`DatumError::id`]); the message is a human-readable aid that callers must
/// not rely on.
#[derive(Clone, Copy, Debug)]
pub struct DatumError {
    /// Kind of error; distinguishes end-of-input conditions from bad data.
    pub kind: DatumErrorKind,
    /// Offset the error is reported at. Points at the start of the construct
    /// that failed, not at the character that revealed the failure.
    pub offset: DatumOffset,
    /// Human-readable description.
    pub message: &'static str,
}

/// The specification-level identity of an error: its kind and offset.
/// Message text is deliberately left unspecified.
pub struct DatumErrorId {
    /// Kind of the error.
    pub kind: DatumErrorKind,
    /// Offset the error is reported at.
    pub offset: DatumOffset,
}

impl DatumError {
    /// What contracts state about an error: everything except the message.
    pub open spec fn id(&self) -> DatumErrorId {
        DatumErrorId { kind: self.kind, offset: self.offset }
    }
}

/// Spec-level shorthand for "interrupted at this offset".
pub open spec fn interrupted_at(offset: DatumOffset) -> DatumErrorId {
    DatumErrorId { kind: DatumErrorKind::Interrupted, offset }
}

/// Spec-level shorthand for "bad data at this offset".
pub open spec fn bad_data_at(offset: DatumOffset) -> DatumErrorId {
    DatumErrorId { kind: DatumErrorKind::BadData, offset }
}

/// Result type used by every reading stage.
pub type DatumResult<V> = Result<V, DatumError>;

} // verus!
