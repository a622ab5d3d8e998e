//! The review walk of bare `gr`: after the status table, offer to walk the
//! dirty repos and stage and commit their changes one file at a time. Nothing
//! is staged or committed but on the operator's answer, and no commit message
//! is ever made up.
use vstd::prelude::*;
use crate::config::Config;
use crate::model::WorkingTree;
use crate::paths::{repo_name, spec_repo_name};
use crate::push::{dirty_parts, spec_dirty_parts};
use crate::server::join_with;
use crate::status::EntryKind;
use crate::text::{chars_of, decimal, push_decimal, push_str, string_from, trim, trim_ws, views};

verus! {

/// A repo is walked when it has changes and is not deliberately ignored (by
/// directory name or path).
pub open spec fn spec_wants_review(cfg: &Config, path: Seq<char>, wt: WorkingTree) -> bool {
    !(views(cfg.ignore@).contains(spec_repo_name(path)) || views(cfg.ignore@).contains(path))
        && !wt.spec_clean()
}

/// Is the repo at `path` walked?
pub fn wants_review(cfg: &Config, path: &String, wt: &WorkingTree) -> (b: bool)
    ensures
        b == spec_wants_review(cfg, path@, *wt),
{
    let name = repo_name(path.as_str());
    !(cfg.is_ignored(&name) || cfg.is_ignored(path)) && !wt.is_clean()
}

/// The offer that opens the walk.
pub open spec fn spec_review_offer(dirty: nat) -> Seq<char> {
    "\n"@ + decimal(dirty) + " repo(s) have uncommitted work."@
}

/// The offer that opens the walk.
pub fn review_offer(dirty: usize) -> (s: String)
    ensures
        s@ == spec_review_offer(dirty as nat),
{
    let mut s = string_from("\n");
    push_decimal(&mut s, dirty as u64);
    push_str(&mut s, " repo(s) have uncommitted work.");
    s
}

/// The answer that starts the walk, trimmed: `s`, `S` or `stage`; anything
/// else (an empty line included) quits.
pub open spec fn spec_starts_review(input: Seq<char>) -> bool {
    let t = trim_ws(input);
    t == seq!['s'] || t == seq!['S'] || t == seq!['s', 't', 'a', 'g', 'e']
}

/// Does the answer start the walk?
pub fn starts_review(input: &str) -> (b: bool)
    ensures
        b == spec_starts_review(input@),
{
    let t = trim(input);
    let v = chars_of(t.as_str());
    proof {
        if v@.len() == 1 {
            assert(v@ == seq![v@[0]]);
        }
        if v@.len() == 5 {
            assert(v@ == seq![v@[0], v@[1], v@[2], v@[3], v@[4]]);
        }
    }
    (v.len() == 1 && (v[0] == 's' || v[0] == 'S')) || (v.len() == 5 && v[0] == 's' && v[1] == 't'
        && v[2] == 'a' && v[3] == 'g' && v[4] == 'e')
}

/// The heading of one repo in the walk: `<name> (<branch>) — <parts>`.
pub open spec fn spec_review_heading(name: Seq<char>, branch: Seq<char>, wt: WorkingTree) -> Seq<char> {
    "\n"@ + name + " ("@ + branch + ") \u{2014} "@ + join_with(spec_dirty_parts(wt), ", "@)
}

/// The heading of one repo in the walk.
pub fn review_heading(name: &str, branch: &str, wt: &WorkingTree) -> (s: String)
    ensures
        s@ == spec_review_heading(name@, branch@, *wt),
{
    let mut s = string_from("\n");
    push_str(&mut s, name);
    push_str(&mut s, " (");
    push_str(&mut s, branch);
    push_str(&mut s, ") \u{2014} ");
    let p = dirty_parts(wt);
    push_str(&mut s, p.as_str());
    s
}

/// What the walk does with one changed path.
#[derive(Debug, Clone, Copy, PartialEq, Eq, Structural)]
pub enum EntryStep {
    /// An unmerged path: reported, never staged.
    ReportConflict,
    /// Already fully staged: nothing to ask.
    AlreadyStaged,
    /// Untracked or modified: show its diff and offer to stage it.
    OfferStage,
}

/// The step for a changed path of each kind.
pub open spec fn spec_entry_step(kind: EntryKind) -> EntryStep {
    match kind {
        EntryKind::Conflict => EntryStep::ReportConflict,
        EntryKind::StagedOnly => EntryStep::AlreadyStaged,
        EntryKind::Untracked => EntryStep::OfferStage,
        EntryKind::Modified => EntryStep::OfferStage,
    }
}

/// The step for a changed path.
pub fn entry_step(kind: EntryKind) -> (s: EntryStep)
    ensures
        s == spec_entry_step(kind),
{
    match kind {
        EntryKind::Conflict => EntryStep::ReportConflict,
        EntryKind::StagedOnly => EntryStep::AlreadyStaged,
        EntryKind::Untracked | EntryKind::Modified => EntryStep::OfferStage,
    }
}

/// The answer to "stage this path?".
#[derive(Debug, Clone, Copy, PartialEq, Eq, Structural)]
pub enum StageAnswer {
    /// Stage it.
    Stage,
    /// Open it in the editor, then show the diff and ask again.
    Edit,
    /// Leave it unstaged.
    Leave,
}

/// The answer, trimmed: `y`/`Y` stages, `e`/`E` edits, anything else leaves
/// the path unstaged.
pub open spec fn spec_stage_answer(input: Seq<char>) -> StageAnswer {
    let t = trim_ws(input);
    if t == seq!['y'] || t == seq!['Y'] {
        StageAnswer::Stage
    } else if t == seq!['e'] || t == seq!['E'] {
        StageAnswer::Edit
    } else {
        StageAnswer::Leave
    }
}

/// Read the answer to "stage this path?".
pub fn stage_answer(input: &str) -> (a: StageAnswer)
    ensures
        a == spec_stage_answer(input@),
{
    let t = trim(input);
    let v = chars_of(t.as_str());
    proof {
        if v@.len() == 1 {
            assert(v@ == seq![v@[0]]);
        }
    }
    if v.len() == 1 && (v[0] == 'y' || v[0] == 'Y') {
        StageAnswer::Stage
    } else if v.len() == 1 && (v[0] == 'e' || v[0] == 'E') {
        StageAnswer::Edit
    } else {
        StageAnswer::Leave
    }
}

/// The commit message an answer gives: the trimmed text, none when blank (the
/// staged changes are then left staged, uncommitted).
pub fn commit_message(input: &str) -> (m: Option<String>)
    ensures
        crate::git::opt_view(m) == crate::git::trimmed_nonempty(input@),
{
    let t = trim(input);
    if t.as_str().is_empty() {
        None
    } else {
        Some(t)
    }
}

/// After a repo's walk a commit message is asked for only when something is
/// staged.
pub fn wants_commit(staged: u32) -> (b: bool)
    ensures
        b == (staged > 0),
{
    staged > 0
}

/// The commit a repo's walk ends with: one, with the typed message trimmed,
/// only when something is staged and the message is not blank; otherwise none
/// (the staged changes stay staged, uncommitted).
pub open spec fn spec_commit_plan(staged: u32, input: Option<Seq<char>>) -> Option<Seq<char>> {
    if staged > 0 {
        match input {
            Some(m) => crate::git::trimmed_nonempty(m),
            None => None,
        }
    } else {
        None
    }
}

/// The commit to make, if any, from the staged count after the walk and the
/// operator's answer (`None` at the end of input).
pub fn commit_plan(staged: u32, input: Option<&str>) -> (m: Option<String>)
    ensures
        crate::git::opt_view(m) == spec_commit_plan(
            staged,
            match input {
                Some(s) => Some(s@),
                None => None,
            },
        ),
{
    if !wants_commit(staged) {
        return None;
    }
    match input {
        Some(s) => commit_message(s),
        None => None,
    }
}

/// The closing line of the walk.
pub open spec fn spec_review_done(total: nat) -> Seq<char> {
    "\n"@ + decimal(total)
        + " repo(s) reviewed. Run `gr push` or `gr sync` to back up anything you committed."@
}

/// The closing line of the walk.
pub fn review_done(total: usize) -> (s: String)
    ensures
        s@ == spec_review_done(total as nat),
{
    let mut s = string_from("\n");
    push_decimal(&mut s, total as u64);
    push_str(&mut s, " repo(s) reviewed. Run `gr push` or `gr sync` to back up anything you committed.");
    s
}

} // verus!
