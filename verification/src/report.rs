//! What the fleet commands say about each branch they act on: one status line,
//! one audit record when the action is recorded, and the running counts that
//! end in the closing summary.
use vstd::prelude::*;
use crate::text::{decimal, padded, push_decimal, push_padded, push_str, string_from};

verus! {

/// Which running count an outcome adds to.
#[derive(Debug, Clone, Copy, PartialEq, Eq, Structural)]
pub enum Counted {
    Pushed,
    Pulled,
    UpToDate,
    Skipped,
    Failed,
}

/// What the tool reports about one branch against one remote: the branch and
/// remote its line names, the line's status text, the audit record (result,
/// detail) when the action is recorded, and the count it adds to.
pub struct Report {
    pub branch: String,
    pub remote: String,
    pub status: String,
    pub audit: Option<(String, String)>,
    pub counted: Counted,
}

/// The text of an optional audit record.
pub open spec fn audit_view(a: Option<(String, String)>) -> Option<(Seq<char>, Seq<char>)> {
    match a {
        Some(p) => Some((p.0@, p.1@)),
        None => None,
    }
}

/// A report as text: (branch, remote, status, audit record, count).
pub open spec fn report_view(r: Report) -> (Seq<char>, Seq<char>, Seq<char>, Option<(Seq<char>, Seq<char>)>, Counted) {
    (r.branch@, r.remote@, r.status@, audit_view(r.audit), r.counted)
}

/// A report from its parts.
pub fn report(
    branch: &str,
    remote: &str,
    status: String,
    audit: Option<(String, String)>,
    counted: Counted,
) -> (r: Report)
    ensures
        report_view(r) == (branch@, remote@, status@, audit_view(audit), counted),
{
    Report { branch: string_from(branch), remote: string_from(remote), status, audit, counted }
}

/// An audit record `(result, detail)`, unless this is a dry run (which
/// performs nothing and so records nothing).
pub fn audit_record(dry_run: bool, result: &str, detail: String) -> (a: Option<(String, String)>)
    ensures
        audit_view(a) == (if dry_run {
            None
        } else {
            Some((result@, detail@))
        }),
{
    if dry_run {
        None
    } else {
        Some((string_from(result), detail))
    }
}

/// The status line of one branch: `  <name:18> <branch:22> <remote:9> <status>`.
pub open spec fn spec_status_line(name: Seq<char>, branch: Seq<char>, remote: Seq<char>, status: Seq<char>) -> Seq<char> {
    "  "@ + padded(name, 18) + " "@ + padded(branch, 22) + " "@ + padded(remote, 9) + " "@ + status
}

/// The status line of one branch.
pub fn status_line(name: &str, branch: &str, remote: &str, status: &str) -> (s: String)
    ensures
        s@ == spec_status_line(name@, branch@, remote@, status@),
{
    let mut s = string_from("  ");
    push_padded(&mut s, name, 18);
    push_str(&mut s, " ");
    push_padded(&mut s, branch, 22);
    push_str(&mut s, " ");
    push_padded(&mut s, remote, 9);
    push_str(&mut s, " ");
    push_str(&mut s, status);
    s
}

/// Running counts of a push or sync over the fleet.
pub struct Tally {
    pub pushed: u32,
    pub pulled: u32,
    pub uptodate: u32,
    pub skipped: u32,
    pub failed: u32,
    /// Repos whose uncommitted work a push left behind.
    pub dirty: u32,
}

impl Tally {
    /// All counts zero.
    pub fn new() -> (t: Tally)
        ensures
            t.pushed == 0 && t.pulled == 0 && t.uptodate == 0 && t.skipped == 0 && t.failed == 0
                && t.dirty == 0,
    {
        Tally { pushed: 0, pulled: 0, uptodate: 0, skipped: 0, failed: 0, dirty: 0 }
    }

    /// The count an outcome adds to.
    pub open spec fn spec_count_of(self, c: Counted) -> u32 {
        match c {
            Counted::Pushed => self.pushed,
            Counted::Pulled => self.pulled,
            Counted::UpToDate => self.uptodate,
            Counted::Skipped => self.skipped,
            Counted::Failed => self.failed,
        }
    }

    /// Adds one outcome: the count it names goes up by one, the others stay.
    pub fn count(&mut self, c: Counted)
        requires
            old(self).spec_count_of(c) < u32::MAX,
        ensures
            final(self).spec_count_of(c) == old(self).spec_count_of(c) + 1,
            forall|d: Counted| d != c ==> #[trigger] final(self).spec_count_of(d) == old(self).spec_count_of(d),
            final(self).dirty == old(self).dirty,
    {
        match c {
            Counted::Pushed => self.pushed = self.pushed + 1,
            Counted::Pulled => self.pulled = self.pulled + 1,
            Counted::UpToDate => self.uptodate = self.uptodate + 1,
            Counted::Skipped => self.skipped = self.skipped + 1,
            Counted::Failed => self.failed = self.failed + 1,
        }
    }

    /// Adds one repo left dirty.
    pub fn count_dirty(&mut self)
        requires
            old(self).dirty < u32::MAX,
        ensures
            final(self).dirty == old(self).dirty + 1,
            forall|d: Counted| #[trigger] final(self).spec_count_of(d) == old(self).spec_count_of(d),
    {
        self.dirty = self.dirty + 1;
    }
}

/// The closing summary of `gr push`.
pub open spec fn spec_push_summary(t: Tally) -> Seq<char> {
    "\n"@ + decimal(t.pushed as nat) + " pushed \u{b7} "@ + decimal(t.uptodate as nat)
        + " up-to-date \u{b7} "@ + decimal(t.skipped as nat) + " skipped \u{b7} "@ + decimal(
        t.failed as nat,
    ) + " failed"@ + if t.dirty > 0 {
        " \u{b7} "@ + decimal(t.dirty as nat) + " dirty"@
    } else {
        Seq::empty()
    }
}

/// The closing summary of `gr push`.
pub fn push_summary(t: &Tally) -> (s: String)
    ensures
        s@ == spec_push_summary(*t),
{
    let mut s = string_from("\n");
    push_decimal(&mut s, t.pushed as u64);
    push_str(&mut s, " pushed \u{b7} ");
    push_decimal(&mut s, t.uptodate as u64);
    push_str(&mut s, " up-to-date \u{b7} ");
    push_decimal(&mut s, t.skipped as u64);
    push_str(&mut s, " skipped \u{b7} ");
    push_decimal(&mut s, t.failed as u64);
    push_str(&mut s, " failed");
    let ghost base = s@;
    if t.dirty > 0 {
        push_str(&mut s, " \u{b7} ");
        push_decimal(&mut s, t.dirty as u64);
        push_str(&mut s, " dirty");
        assert(s@ == base + (" \u{b7} "@ + decimal(t.dirty as nat) + " dirty"@));
    } else {
        assert(s@ == base + Seq::<char>::empty());
    }
    s
}

/// The closing summary of `gr sync`.
pub open spec fn spec_sync_summary(t: Tally) -> Seq<char> {
    "\n"@ + decimal(t.pushed as nat) + " pushed \u{b7} "@ + decimal(t.pulled as nat)
        + " pulled \u{b7} "@ + decimal(t.uptodate as nat) + " up-to-date \u{b7} "@ + decimal(
        t.skipped as nat,
    ) + " skipped \u{b7} "@ + decimal(t.failed as nat) + " failed"@
}

/// The closing summary of `gr sync`.
pub fn sync_summary(t: &Tally) -> (s: String)
    ensures
        s@ == spec_sync_summary(*t),
{
    let mut s = string_from("\n");
    push_decimal(&mut s, t.pushed as u64);
    push_str(&mut s, " pushed \u{b7} ");
    push_decimal(&mut s, t.pulled as u64);
    push_str(&mut s, " pulled \u{b7} ");
    push_decimal(&mut s, t.uptodate as u64);
    push_str(&mut s, " up-to-date \u{b7} ");
    push_decimal(&mut s, t.skipped as u64);
    push_str(&mut s, " skipped \u{b7} ");
    push_decimal(&mut s, t.failed as u64);
    push_str(&mut s, " failed");
    s
}

} // verus!
