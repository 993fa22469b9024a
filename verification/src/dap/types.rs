//! Patches, hunks and hunk lines, with their mathematical views.
use vstd::prelude::*;

verus! {

/// One line of a unified-diff hunk, with its leading marker character.
#[derive(Debug, Clone, PartialEq)]
pub enum HunkLine {
    Context(String),
    Remove(String),
    Add(String),
}

/// The view of a hunk line.
pub enum LineV {
    Context(Seq<char>),
    Remove(Seq<char>),
    Add(Seq<char>),
}

impl View for HunkLine {
    type V = LineV;

    open spec fn view(&self) -> LineV {
        match self {
            HunkLine::Context(s) => LineV::Context(s@),
            HunkLine::Remove(s) => LineV::Remove(s@),
            HunkLine::Add(s) => LineV::Add(s@),
        }
    }
}

/// A unified-diff hunk: where it starts in the old file, and its lines.
#[derive(Debug, Clone, PartialEq)]
pub struct Hunk {
    pub old_start: usize,
    pub old_len: usize,
    pub new_start: usize,
    pub new_len: usize,
    pub lines: Vec<HunkLine>,
}

/// The view of a hunk.
pub struct HunkV {
    pub old_start: usize,
    pub old_len: usize,
    pub new_start: usize,
    pub new_len: usize,
    pub lines: Seq<LineV>,
}

impl View for Hunk {
    type V = HunkV;

    open spec fn view(&self) -> HunkV {
        HunkV {
            old_start: self.old_start,
            old_len: self.old_len,
            new_start: self.new_start,
            new_len: self.new_len,
            lines: self.lines@.map_values(|l: HunkLine| l@),
        }
    }
}

/// The views of a list of hunks.
pub open spec fn hunks_view(hs: Seq<Hunk>) -> Seq<HunkV> {
    hs.map_values(|h: Hunk| h@)
}

/// What a patch does to its file.
#[derive(Debug, Clone, PartialEq)]
pub enum PatchOp {
    Modify { search: String, replace: String },
    Delete,
    Move(String),
    Udiff(Vec<Hunk>),
}

/// The view of a patch operation.
pub enum OpV {
    Modify { search: Seq<char>, replace: Seq<char> },
    Delete,
    Move(Seq<char>),
    Udiff(Seq<HunkV>),
}

impl View for PatchOp {
    type V = OpV;

    open spec fn view(&self) -> OpV {
        match self {
            PatchOp::Modify { search, replace } => OpV::Modify { search: search@, replace: replace@ },
            PatchOp::Delete => OpV::Delete,
            PatchOp::Move(dest) => OpV::Move(dest@),
            PatchOp::Udiff(hunks) => OpV::Udiff(hunks_view(hunks@)),
        }
    }
}

/// One change to one file.
#[derive(Debug, Clone, PartialEq)]
pub struct Patch {
    pub file_path: String,
    pub op: PatchOp,
}

/// The view of a patch.
pub struct PatchV {
    pub file_path: Seq<char>,
    pub op: OpV,
}

impl View for Patch {
    type V = PatchV;

    open spec fn view(&self) -> PatchV {
        PatchV { file_path: self.file_path@, op: self.op@ }
    }
}

/// The views of a list of patches.
pub open spec fn patches_view(ps: Seq<Patch>) -> Seq<PatchV> {
    ps.map_values(|p: Patch| p@)
}

} // verus!
