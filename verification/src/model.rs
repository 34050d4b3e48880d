//! The data model of a parsed patch set: per-file patches, hunks, typed
//! lines and line ranges, together with their mathematical views.

use vstd::prelude::*;

verus! {

/// One line of a hunk: common to both sides, added, or removed.
#[derive(Debug)]
pub enum DiffLine {
    Context(String),
    Add(String),
    Remove(String),
}

/// Mathematical view of a [`DiffLine`].
pub enum DiffLineV {
    Context(Seq<char>),
    Add(Seq<char>),
    Remove(Seq<char>),
}

impl View for DiffLine {
    type V = DiffLineV;

    open spec fn view(&self) -> DiffLineV {
        match self {
            DiffLine::Context(s) => DiffLineV::Context(s@),
            DiffLine::Add(s) => DiffLineV::Add(s@),
            DiffLine::Remove(s) => DiffLineV::Remove(s@),
        }
    }
}

/// A line range as written in a hunk header: a 1-based start line and a
/// length, both on one side of the diff.
#[derive(Clone, Copy, Debug, PartialEq, Eq, Structural)]
pub struct LineRange {
    pub start: u32,
    pub length: u32,
}

/// A contiguous change region: the ranges it covers in the old and new
/// file, and its ordered context / add / remove lines.
#[derive(Debug)]
pub struct Hunk {
    pub old_range: LineRange,
    pub new_range: LineRange,
    pub lines: Vec<DiffLine>,
}

/// Mathematical view of a [`Hunk`].
pub struct HunkV {
    pub old_start: nat,
    pub old_length: nat,
    pub new_start: nat,
    pub new_length: nat,
    pub lines: Seq<DiffLineV>,
}

impl View for Hunk {
    type V = HunkV;

    open spec fn view(&self) -> HunkV {
        HunkV {
            old_start: self.old_range.start as nat,
            old_length: self.old_range.length as nat,
            new_start: self.new_range.start as nat,
            new_length: self.new_range.length as nat,
            lines: self.lines@.map_values(|l: DiffLine| l@),
        }
    }
}

/// The patch of one file: the old and new header paths and the ordered
/// hunks to apply.  `old_path` and `new_path` are the paths exactly as
/// written in the `---` and `+++` headers; they may differ to express a
/// rename.
#[derive(Debug)]
pub struct FilePatch {
    pub old_path: String,
    pub new_path: String,
    pub hunks: Vec<Hunk>,
}

/// Mathematical view of a [`FilePatch`].
pub struct FilePatchV {
    pub old_path: Seq<char>,
    pub new_path: Seq<char>,
    pub hunks: Seq<HunkV>,
}

impl View for FilePatch {
    type V = FilePatchV;

    open spec fn view(&self) -> FilePatchV {
        FilePatchV {
            old_path: self.old_path@,
            new_path: self.new_path@,
            hunks: self.hunks@.map_values(|h: Hunk| h@),
        }
    }
}

/// The views of a sequence of hunks.
pub open spec fn hunks_view(hs: Seq<Hunk>) -> Seq<HunkV> {
    hs.map_values(|h: Hunk| h@)
}

/// The views of a sequence of hunk lines.
pub open spec fn diff_lines_view(ls: Seq<DiffLine>) -> Seq<DiffLineV> {
    ls.map_values(|l: DiffLine| l@)
}

/// The views of a sequence of text lines.
pub open spec fn texts_view(ls: Seq<String>) -> Seq<Seq<char>> {
    ls.map_values(|s: String| s@)
}

/// The views of a sequence of per-file patches.
pub open spec fn file_patches_view(ps: Seq<FilePatch>) -> Seq<FilePatchV> {
    ps.map_values(|p: FilePatch| p@)
}

} // verus!
