//! The options of the commands that act on the fleet, as given on the
//! command line.
use vstd::prelude::*;

verus! {

/// `gr push` options.
pub struct PushArgs {
    /// Push every local branch instead of just the checked-out one.
    pub all_branches: bool,
    /// Push to exactly this remote (no transport failover).
    pub remote: Option<String>,
    /// Limit to these repos (by directory name or path).
    pub only: Vec<String>,
    /// Show what would be pushed without updating any remote.
    pub dry_run: bool,
    /// Also push annotated tags reachable from pushed commits.
    pub tags: bool,
}

/// `gr create` options.
pub struct CreateArgs {
    /// Home name (default: the current directory's name).
    pub name: Option<String>,
    /// Push every local branch, not just the checked-out one.
    pub all_branches: bool,
}

/// `gr onboard` options.
pub struct OnboardArgs {
    /// Show each candidate and what would happen; prompt for nothing, change
    /// nothing, record nothing.
    pub dry_run: bool,
}

/// `gr clone` options.
pub struct CloneArgs {
    /// Home name to clone (`<root>/<name>.git` on the server).
    pub name: String,
    /// Target directory (inside a configured root; default `<first root>/<name>`).
    pub dir: Option<String>,
}

/// `gr sync` options.
pub struct SyncArgs {
    /// Reconcile every local branch instead of just the checked-out one.
    pub all_branches: bool,
    /// Confirm each effecting action (push / fast-forward) before it runs.
    pub interactive: bool,
    /// Show what would happen without changing anything.
    pub dry_run: bool,
    /// Limit to these repos (by directory name).
    pub repos: Vec<String>,
}

} // verus!
