//! What an un-redundant repo needs to become redundant, decided from where its
//! home already lives.
use vstd::prelude::*;

verus! {

/// The mechanism `gr onboard` uses to make one repo redundant.
#[derive(Debug, Clone, Copy, PartialEq, Eq, Structural)]
pub enum OnboardAction {
    /// No home anywhere → `create` provisions the full topology from scratch.
    Create,
    /// A home exists on the backup but not the primary → `repoint` provisions
    /// the primary and re-roles the existing backup.
    Repoint,
    /// A home already exists on the primary → `attach` wires the local remotes
    /// at the existing primary; no fresh home is created.
    Attach,
}

/// The primary is decisive; the backup only breaks the tie when the primary is
/// absent.
pub open spec fn spec_classify_onboard(primary_home: bool, backup_home: bool) -> OnboardAction {
    if primary_home {
        OnboardAction::Attach
    } else if backup_home {
        OnboardAction::Repoint
    } else {
        OnboardAction::Create
    }
}

/// Decide the onboarding mechanism from where the home already lives.
///
/// If a primary home exists the answer is always `Attach`, regardless of the
/// backup. Only when the primary is absent does the backup break the tie:
/// present → `Repoint`, absent → `Create`.
pub fn classify_onboard(primary_home: bool, backup_home: bool) -> (a: OnboardAction)
    ensures
        a == spec_classify_onboard(primary_home, backup_home),
{
    match (primary_home, backup_home) {
        (true, _) => OnboardAction::Attach,
        (false, true) => OnboardAction::Repoint,
        (false, false) => OnboardAction::Create,
    }
}

/// Onboarding never provisions a second primary: `Create` and `Repoint` (both
/// make a new primary home) are chosen only when no primary home exists, and a
/// `Repoint` only when there is a backup home to re-role.
pub proof fn lemma_onboard_never_duplicates_primary(primary_home: bool, backup_home: bool)
    ensures
        primary_home <==> spec_classify_onboard(primary_home, backup_home) == OnboardAction::Attach,
        spec_classify_onboard(primary_home, backup_home) == OnboardAction::Repoint ==> backup_home,
{
}

} // verus!
