//! What `gr sync` does for one branch: given the branch's classification and
//! whether the working tree is clean, the single safe action.
use vstd::prelude::*;
use crate::classify::BranchSync;

verus! {

/// The one action `sync` takes for a branch.
#[derive(Debug, Clone, Copy, PartialEq, Eq, Structural)]
pub enum SyncAction {
    /// Already in agreement — nothing to do.
    UpToDate,
    /// Local is ahead / the branch is new on the home → easy push.
    Push,
    /// Home is ahead and the tree is clean → fast-forward pull (`behind` commits).
    FastForward(u32),
    /// Home is ahead but the working tree is dirty → can't ff safely; report it.
    BlockedDirty(u32),
    /// Diverged / conflicted → manual; never forced or auto-merged.
    Report,
}

/// The action for each classification; a behind branch fast-forwards only on
/// a clean tree.
pub open spec fn spec_plan(sync: BranchSync, tree_clean: bool) -> SyncAction {
    match sync {
        BranchSync::UpToDate => SyncAction::UpToDate,
        BranchSync::NoRemoteBranch => SyncAction::Push,
        BranchSync::Ahead(_) => SyncAction::Push,
        BranchSync::Behind(n) => if tree_clean {
            SyncAction::FastForward(n)
        } else {
            SyncAction::BlockedDirty(n)
        },
        BranchSync::Diverged { .. } => SyncAction::Report,
    }
}

impl SyncAction {
    /// The action changes something: a push or a fast-forward.
    pub open spec fn spec_effecting(self) -> bool {
        self is Push || self is FastForward
    }

    /// Decide the action from a branch's classification and the tree's
    /// cleanliness. `tree_clean` gates the fast-forward pull, the only
    /// working-tree write `sync` performs.
    pub fn plan(sync: BranchSync, tree_clean: bool) -> (a: SyncAction)
        ensures
            a == spec_plan(sync, tree_clean),
    {
        match sync {
            BranchSync::UpToDate => SyncAction::UpToDate,
            BranchSync::NoRemoteBranch | BranchSync::Ahead(_) => SyncAction::Push,
            BranchSync::Behind(n) => {
                if tree_clean {
                    SyncAction::FastForward(n)
                } else {
                    SyncAction::BlockedDirty(n)
                }
            },
            BranchSync::Diverged { .. } => SyncAction::Report,
        }
    }

    /// Does this action change anything (and so want a confirmation under `-i`)?
    pub fn is_effecting(&self) -> (b: bool)
        ensures
            b == self.spec_effecting(),
    {
        match self {
            SyncAction::Push | SyncAction::FastForward(_) => true,
            _ => false,
        }
    }
}

/// The working-tree safety invariant of sync: a fast-forward is only ever
/// planned for a clean tree, and a dirty tree never fast-forwards.
pub proof fn lemma_fast_forward_needs_clean_tree(sync: BranchSync, tree_clean: bool)
    ensures
        spec_plan(sync, tree_clean) is FastForward ==> tree_clean,
        !tree_clean ==> !(spec_plan(sync, tree_clean) is FastForward),
{
}

/// Sync never acts on history it does not own: a diverged branch is always
/// reported, whatever the tree; only a push or a fast-forward is effecting,
/// and a push is planned exactly for the easy-push states other than up-to-date.
pub proof fn lemma_sync_acts_only_on_easy_work(sync: BranchSync, tree_clean: bool)
    ensures
        sync is Diverged ==> spec_plan(sync, tree_clean) == SyncAction::Report,
        spec_plan(sync, tree_clean) == SyncAction::Push <==> (sync.spec_easy_push()
            && sync != BranchSync::UpToDate),
        spec_plan(sync, tree_clean).spec_effecting() ==> (sync.spec_easy_push() || sync is Behind),
        spec_plan(sync, tree_clean) is FastForward ==> spec_plan(sync, tree_clean)->FastForward_0
            == sync->Behind_0,
{
}


/// `sync` never fast-forwards the checked-out branch while anything is
/// pending in the tree — an untracked file as much as a modified one — and
/// then reports it blocked; with nothing pending a behind branch is
/// fast-forwarded.
pub proof fn lemma_no_fast_forward_over_pending_work(n: u32, wt: crate::model::WorkingTree)
    ensures
        (wt.staged > 0 || wt.unstaged > 0 || wt.untracked > 0 || wt.conflicts > 0) ==> spec_plan(
            BranchSync::Behind(n),
            wt.spec_clean(),
        ) == SyncAction::BlockedDirty(n),
        (wt.staged == 0 && wt.unstaged == 0 && wt.untracked == 0 && wt.conflicts == 0) ==> spec_plan(
            BranchSync::Behind(n),
            wt.spec_clean(),
        ) == SyncAction::FastForward(n),
{
}
} // verus!
