//! Classify a local branch's relationship to one remote-tracking branch, and
//! decide whether pushing it is "easy".
use vstd::prelude::*;
use crate::model::AheadBehind;

verus! {

/// Relationship of a local branch to one remote's copy of it.
#[derive(Debug, Clone, Copy, PartialEq, Eq, Structural)]
pub enum BranchSync {
    /// The remote has no such branch yet; a push would create it.
    NoRemoteBranch,
    /// Identical to the remote.
    UpToDate,
    /// Local is ahead only — a push fast-forwards the remote.
    Ahead(u32),
    /// Local is behind only — a push would be rejected; you'd pull.
    Behind(u32),
    /// Histories diverged. `conflict` is the result of a trial merge (if known).
    Diverged { ahead: u32, behind: u32, conflict: bool },
}

/// The classification of an optional ahead/behind pair: absent remote branch,
/// equal, strictly one-sided, or diverged (conflict unknown counts as none).
pub open spec fn spec_classify(ab: Option<AheadBehind>, diverged_conflict: Option<bool>) -> BranchSync {
    match ab {
        None => BranchSync::NoRemoteBranch,
        Some(v) => if v.ahead == 0 && v.behind == 0 {
            BranchSync::UpToDate
        } else if v.behind == 0 {
            BranchSync::Ahead(v.ahead)
        } else if v.ahead == 0 {
            BranchSync::Behind(v.behind)
        } else {
            BranchSync::Diverged {
                ahead: v.ahead,
                behind: v.behind,
                conflict: match diverged_conflict {
                    Some(c) => c,
                    None => false,
                },
            }
        },
    }
}

impl BranchSync {
    /// A push creates the branch, is a no-op, or fast-forwards the remote.
    pub open spec fn spec_easy_push(self) -> bool {
        self is NoRemoteBranch || self is UpToDate || self is Ahead
    }

    /// The short status-table label of each state.
    pub open spec fn spec_label(self) -> Seq<char> {
        match self {
            BranchSync::NoRemoteBranch => "new"@,
            BranchSync::UpToDate => "ok"@,
            BranchSync::Ahead(_) => "ff"@,
            BranchSync::Behind(_) => "behind"@,
            BranchSync::Diverged { conflict, .. } => if conflict {
                "CONFLICT"@
            } else {
                "diverged"@
            },
        }
    }

    /// Build from an optional ahead/behind (`None` = the remote branch is absent)
    /// and, when diverged, whether a trial merge reported conflicts.
    pub fn classify(ab: Option<AheadBehind>, diverged_conflict: Option<bool>) -> (s: BranchSync)
        ensures
            s == spec_classify(ab, diverged_conflict),
    {
        match ab {
            None => BranchSync::NoRemoteBranch,
            Some(v) => {
                if v.ahead == 0 && v.behind == 0 {
                    BranchSync::UpToDate
                } else if v.behind == 0 {
                    BranchSync::Ahead(v.ahead)
                } else if v.ahead == 0 {
                    BranchSync::Behind(v.behind)
                } else {
                    let conflict = match diverged_conflict {
                        Some(c) => c,
                        None => false,
                    };
                    BranchSync::Diverged { ahead: v.ahead, behind: v.behind, conflict }
                }
            },
        }
    }

    /// A push is "easy" iff it creates the branch or fast-forwards it — never
    /// when the remote is ahead (would be rejected) or histories diverged.
    /// `UpToDate` is trivially easy (a no-op).
    pub fn is_easy_push(&self) -> (b: bool)
        ensures
            b == self.spec_easy_push(),
    {
        match self {
            BranchSync::NoRemoteBranch | BranchSync::UpToDate | BranchSync::Ahead(_) => true,
            _ => false,
        }
    }

    /// Short label for the status table.
    pub fn label(&self) -> (s: &'static str)
        ensures
            s@ == self.spec_label(),
    {
        match self {
            BranchSync::NoRemoteBranch => "new",
            BranchSync::UpToDate => "ok",
            BranchSync::Ahead(_) => "ff",
            BranchSync::Behind(_) => "behind",
            BranchSync::Diverged { conflict, .. } => if *conflict {
                "CONFLICT"
            } else {
                "diverged"
            },
        }
    }
}

/// The safety invariant of pushing: whatever the ahead/behind counts and the
/// conflict probe, a push is only ever "easy" when the remote is not ahead of
/// the local branch (`behind == 0`), so an easy push can never overwrite
/// remote commits.
pub proof fn lemma_easy_push_implies_not_behind(ab: AheadBehind, conflict: Option<bool>)
    ensures
        spec_classify(Some(ab), conflict).spec_easy_push() ==> ab.behind == 0,
{
}

/// `is_easy_push` holds exactly for the create / no-op / fast-forward states of
/// a classification, and never for behind or diverged ones.
pub proof fn lemma_easy_push_matches_states(ab: Option<AheadBehind>, conflict: Option<bool>)
    ensures
        ({
            let s = spec_classify(ab, conflict);
            s.spec_easy_push() <==> (s is NoRemoteBranch || s is UpToDate || s is Ahead)
        }),
        ({
            let s = spec_classify(ab, conflict);
            (s is Behind || s is Diverged) ==> !s.spec_easy_push()
        }),
{
}

/// Classification is total and every classified state has a non-empty label.
pub proof fn lemma_label_nonempty(ab: Option<AheadBehind>, conflict: Option<bool>)
    ensures
        spec_classify(ab, conflict).spec_label().len() > 0,
{
    reveal_strlit("new");
    reveal_strlit("ok");
    reveal_strlit("ff");
    reveal_strlit("behind");
    reveal_strlit("CONFLICT");
    reveal_strlit("diverged");
}

/// Classification keeps the counts: an ahead-only state carries `ahead`, a
/// behind-only state carries `behind`, and a diverged state carries both, with
/// both non-zero.
pub proof fn lemma_classify_keeps_counts(ab: AheadBehind, conflict: Option<bool>)
    ensures
        ({
            let s = spec_classify(Some(ab), conflict);
            &&& s == BranchSync::UpToDate <==> (ab.ahead == 0 && ab.behind == 0)
            &&& s is Ahead ==> s->Ahead_0 == ab.ahead && ab.ahead > 0 && ab.behind == 0
            &&& s is Behind ==> s->Behind_0 == ab.behind && ab.behind > 0 && ab.ahead == 0
            &&& s is Diverged ==> s->ahead == ab.ahead && s->behind == ab.behind && ab.ahead > 0
                && ab.behind > 0
            &&& !(s is NoRemoteBranch)
        }),
{
}

} // verus!
