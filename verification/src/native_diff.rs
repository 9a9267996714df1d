//! The comparison that a review shows.
use vstd::prelude::*;

verus! {

/// What a line of a patch is.
#[derive(Debug, Clone, Copy, PartialEq, Eq, Structural)]
pub enum PatchLineKind {
    FileHeader,
    HunkHeader,
    Context,
    Added,
    Removed,
    Meta,
}

/// Where a line of a patch belongs.
#[derive(Debug, Clone, Copy, PartialEq, Eq, Structural)]
pub struct PatchLine {
    pub kind: PatchLineKind,
    pub file: Option<usize>,
    pub old_line: Option<usize>,
    pub new_line: Option<usize>,
}

/// A changed file.
#[derive(Debug, PartialEq, Eq)]
pub struct DiffFile {
    pub path: String,
    pub old_path: Option<String>,
    pub status: String,
    pub additions: usize,
    pub deletions: usize,
    pub binary: bool,
}

/// How the base of a review was chosen.
#[derive(Debug, Clone, Copy, PartialEq, Eq, Structural)]
pub enum BaseKind {
    DefaultBranch,
    OnDefaultBranch,
    NoDefaultBranch,
    Explicit,
}

/// What a review compares against.
#[derive(Debug, PartialEq, Eq)]
pub struct ReviewBase {
    pub name: String,
    pub spec: String,
    pub kind: BaseKind,
    /// The remote and its branch, where the base is one.
    pub remote: Option<(String, String)>,
    pub ever_fetched: bool,
    /// Seconds since the base was last fetched.
    pub fetched_ago: Option<u64>,
}

/// A patch with the origin of each of its lines.
#[derive(Debug, PartialEq, Eq)]
pub struct ReviewPatch {
    pub root: String,
    pub base: ReviewBase,
    pub head: String,
    pub merge_base: Option<String>,
    pub comparison_base_oid: Option<String>,
    pub ahead: usize,
    pub behind: usize,
    pub text: String,
    pub lines: Vec<PatchLine>,
    pub files: Vec<DiffFile>,
    pub truncated: bool,
}

/// A line of a section of a rearranged review.
#[derive(Debug, PartialEq, Eq)]
pub struct ReviewSectionLine {
    pub kind: PatchLineKind,
    pub text: String,
    pub source_patch_line: usize,
    pub old_line: Option<usize>,
    pub new_line: Option<usize>,
}

/// A section of a rearranged review.
#[derive(Debug, PartialEq, Eq)]
pub struct ReviewSection {
    pub label: Option<String>,
    pub old_path: Option<String>,
    pub new_path: Option<String>,
    pub lines: Vec<ReviewSectionLine>,
    /// The patch lines whose change leaves the same file equal but for white space.
    pub equal_changes: Vec<usize>,
}

/// A stretch of added or of removed lines of a patch.
#[derive(Debug, PartialEq, Eq)]
pub struct ReviewBlock {
    pub id: String,
    pub kind: PatchLineKind,
    pub file: usize,
    pub patch_line_start: usize,
    pub start_line: usize,
    pub line_count: usize,
}

/// A frozen comparison.
#[derive(Debug, PartialEq, Eq)]
pub struct ReviewSnapshot {
    pub id: String,
    pub patch: ReviewPatch,
    pub blocks: Vec<ReviewBlock>,
}

/// A frozen comparison in a chosen arrangement.
#[derive(Debug, PartialEq, Eq)]
pub struct CustomReview {
    pub snapshot: ReviewSnapshot,
    pub sections: Vec<ReviewSection>,
}

/// The sum of the first `k` files' additions, as far as it can be counted.
pub open spec fn additions_of(files: Seq<DiffFile>, k: int) -> nat
    decreases k,
{
    if k <= 0 || k > files.len() {
        0
    } else {
        capped(additions_of(files, k - 1) + files[k - 1].additions as nat)
    }
}

/// The sum of the first `k` files' deletions, as far as it can be counted.
pub open spec fn deletions_of(files: Seq<DiffFile>, k: int) -> nat
    decreases k,
{
    if k <= 0 || k > files.len() {
        0
    } else {
        capped(deletions_of(files, k - 1) + files[k - 1].deletions as nat)
    }
}

pub open spec fn capped(n: nat) -> nat {
    if n <= usize::MAX {
        n
    } else {
        usize::MAX as nat
    }
}

impl ReviewPatch {
    /// How many lines the patch adds.
    pub fn additions(&self) -> (n: usize)
        ensures
            n == additions_of(self.files@, self.files.len() as int),
    {
        let mut n: usize = 0;
        let mut k: usize = 0;
        while k < self.files.len()
            invariant
                k <= self.files.len(),
                n == additions_of(self.files@, k as int),
            decreases self.files.len() - k,
        {
            n = n.saturating_add(self.files[k].additions);
            k += 1;
        }
        n
    }

    /// How many lines the patch removes.
    pub fn deletions(&self) -> (n: usize)
        ensures
            n == deletions_of(self.files@, self.files.len() as int),
    {
        let mut n: usize = 0;
        let mut k: usize = 0;
        while k < self.files.len()
            invariant
                k <= self.files.len(),
                n == deletions_of(self.files@, k as int),
            decreases self.files.len() - k,
        {
            n = n.saturating_add(self.files[k].deletions);
            k += 1;
        }
        n
    }
}

impl ReviewSection {
    /// Whether a patch line's change leaves the file equal but for white space.
    pub fn is_equal_change(&self, patch_line: usize) -> (res: bool)
        ensures
            res == self.equal_changes@.contains(patch_line),
    {
        let mut k: usize = 0;
        while k < self.equal_changes.len()
            invariant
                k <= self.equal_changes.len(),
                forall|j: int| 0 <= j < k ==> self.equal_changes@[j] != patch_line,
            decreases self.equal_changes.len() - k,
        {
            if self.equal_changes[k] == patch_line {
                proof {
                    assert(self.equal_changes@[k as int] == patch_line);
                }
                return true;
            }
            k += 1;
        }
        false
    }
}

} // verus!
