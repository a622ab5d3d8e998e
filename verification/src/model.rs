//! Value types for repo state.
use vstd::prelude::*;

verus! {

/// Counts of working-tree changes, derived from `git status --porcelain=v2`.
///
/// `staged` / `unstaged` count index- vs worktree-side changes; `untracked`
/// counts files git isn't tracking yet; `conflicts` counts unmerged entries.
#[derive(Debug, Clone, Copy, PartialEq, Eq, Structural, Default)]
pub struct WorkingTree {
    pub staged: u32,
    pub unstaged: u32,
    pub untracked: u32,
    pub conflicts: u32,
}

impl WorkingTree {
    /// Nothing changed, nothing untracked, nothing unmerged.
    pub open spec fn spec_clean(self) -> bool {
        self.staged == 0 && self.unstaged == 0 && self.untracked == 0 && self.conflicts == 0
    }

    /// Changes that a push would not capture (untracked files excluded).
    pub open spec fn spec_uncommitted(self) -> bool {
        self.staged != 0 || self.unstaged != 0 || self.conflicts != 0
    }

    /// Nothing changed, nothing untracked, nothing unmerged.
    pub fn is_clean(&self) -> (b: bool)
        ensures
            b == self.spec_clean(),
    {
        self.staged == 0 && self.unstaged == 0 && self.untracked == 0 && self.conflicts == 0
    }

    /// Are there changes that a push would not capture (not yet committed)?
    /// Untracked files are excluded.
    pub fn has_uncommitted_changes(&self) -> (b: bool)
        ensures
            b == self.spec_uncommitted(),
    {
        self.staged != 0 || self.unstaged != 0 || self.conflicts != 0
    }
}

/// How far a local branch is ahead of / behind one remote-tracking branch.
#[derive(Debug, Clone, Copy, PartialEq, Eq, Structural)]
pub struct AheadBehind {
    pub ahead: u32,
    pub behind: u32,
}


/// A tree is clean only when nothing at all is pending: any staged,
/// unstaged, untracked or conflicted path makes it dirty, and with none of
/// them it is clean.
pub proof fn lemma_clean_means_nothing_pending(wt: WorkingTree)
    ensures
        wt.untracked > 0 ==> !wt.spec_clean(),
        wt.staged > 0 ==> !wt.spec_clean(),
        wt.unstaged > 0 ==> !wt.spec_clean(),
        wt.conflicts > 0 ==> !wt.spec_clean(),
        (wt.staged == 0 && wt.unstaged == 0 && wt.untracked == 0 && wt.conflicts == 0) ==> wt.spec_clean(),
        wt.spec_clean() ==> !wt.spec_uncommitted(),
{
}
} // verus!
