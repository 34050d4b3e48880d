//! Error taxonomy of the vendoring service and of the patch engine.

use vstd::prelude::*;

verus! {

/// The broad failure classes of the vendoring service.
#[derive(Clone, Copy, Debug, PartialEq, Eq, Structural)]
pub enum OBSCargoErrorKind {
    AuditNeedsAction,
    VendorCompressionFailed,
    VendorError,
    AuditError,
    PatchError,
}

impl OBSCargoErrorKind {
    /// A short fixed description of the failure class.
    pub fn as_str(self) -> (r: &'static str)
        ensures
            self is AuditError ==> r@ == "cargo audit process failed"@,
            self is AuditNeedsAction ==> r@ == "security audit is actionable"@,
            self is VendorError ==> r@ == "cargo vendor process failed"@,
            self is VendorCompressionFailed ==> r@ == "compress vendored dependencies failed"@,
            self is PatchError ==> r@ == "applying patch to vendored sources failed"@,
    {
        match self {
            OBSCargoErrorKind::AuditError => "cargo audit process failed",
            OBSCargoErrorKind::AuditNeedsAction => "security audit is actionable",
            OBSCargoErrorKind::VendorError => "cargo vendor process failed",
            OBSCargoErrorKind::VendorCompressionFailed => "compress vendored dependencies failed",
            OBSCargoErrorKind::PatchError => "applying patch to vendored sources failed",
        }
    }
}

/// A failure of the patch engine, with enough detail to diagnose it
/// without re-running: the hunk, the 0-based old-file line index, and the
/// expected against the actual text where a line comparison failed.
///
/// `actual` is `None` when the old file ended before the line the patch
/// expected.
#[derive(Debug)]
pub enum PatchError {
    /// The old file or the patch file itself could not be read.
    ReadError { path: String },
    /// The patch text is not well-formed multi-file unified-diff syntax;
    /// `line` is the 0-based line of the patch text where parsing stopped.
    ParseError { line: usize },
    /// A context line of the patch does not match the old file.
    ContextMismatch { hunk: usize, line: usize, expected: String, actual: Option<String> },
    /// A line the patch removes does not match the old file.
    RemovalMismatch { hunk: usize, line: usize, expected: String, actual: Option<String> },
    /// The new content could not be written to its destination.
    WriteError { path: String },
}

/// A failure of the vendoring service: a class together with a free-form
/// reason.
#[derive(Clone)]
pub struct OBSCargoError {
    pub kind: OBSCargoErrorKind,
    pub message: String,
}

impl OBSCargoError {
    pub fn new(kind: OBSCargoErrorKind, message: String) -> (r: OBSCargoError)
        ensures
            r.kind == kind,
            r.message@ == message@,
    {
        OBSCargoError { kind, message }
    }
}

} // verus!
