//! The append-only audit log: where it lives and what one record says. One
//! line per action, timestamped in UTC, recording what / where / result.
use vstd::prelude::*;
use crate::config::{non_empty, opt_text, path_join, spec_config_path, join_path, Config};
use crate::text::{chars_of, push_str, string_from, string_of};
use crate::timefmt::{rfc3339_utc, spec_rfc3339};

verus! {

/// A resolved audit sink. `None` path = auditing disabled.
pub struct Audit {
    path: Option<String>,
}

/// The state directory: `$XDG_STATE_HOME`, else `$HOME/.local/state`, else
/// the relative `.local/state`.
pub open spec fn spec_state_dir(state_home: Option<Seq<char>>, home: Option<Seq<char>>) -> Seq<char> {
    match non_empty(state_home) {
        Some(s) => s,
        None => match home {
            Some(h) => path_join(path_join(h, ".local"@), "state"@),
            None => ".local/state"@,
        },
    }
}

/// `p` with a leading `~` component replaced by `$HOME` (unchanged when it has
/// none or `$HOME` is unset).
pub open spec fn spec_expand_tilde(p: Seq<char>, home: Option<Seq<char>>) -> Seq<char> {
    let tilde = p.len() > 0 && p[0] == '~' && (p.len() == 1 || p[1] == '/');
    match home {
        Some(h) => if tilde {
            path_join(h, drop_slashes(p.drop_first()))
        } else {
            p
        },
        None => p,
    }
}

/// `s` without its leading `/` characters.
pub open spec fn drop_slashes(s: Seq<char>) -> Seq<char>
    decreases s.len(),
{
    if s.len() > 0 && s[0] == '/' {
        drop_slashes(s.drop_first())
    } else {
        s
    }
}

/// The audit log path of a configuration: the configured `log` (tilde
/// expanded), else `git-redundancy/audit.log` under the state directory.
pub open spec fn spec_audit_path(
    log: Option<Seq<char>>,
    state_home: Option<Seq<char>>,
    home: Option<Seq<char>>,
) -> Seq<char> {
    match log {
        Some(p) => spec_expand_tilde(p, home),
        None => path_join(path_join(spec_state_dir(state_home, home), "git-redundancy"@), "audit.log"@),
    }
}

fn default_state_dir(state_home: &Option<String>, home: &Option<String>) -> (d: String)
    ensures
        d@ == spec_state_dir(opt_text(*state_home), opt_text(*home)),
{
    match state_home {
        Some(s) if !s.as_str().is_empty() => s.clone(),
        _ => match home {
            Some(h) => {
                let l = join_path(h.as_str(), ".local");
                join_path(l.as_str(), "state")
            },
            None => string_from(".local/state"),
        },
    }
}

fn expand_tilde(p: &str, home: &Option<String>) -> (r: String)
    ensures
        r@ == spec_expand_tilde(p@, opt_text(*home)),
{
    let v = chars_of(p);
    let tilde = v.len() > 0 && v[0] == '~' && (v.len() == 1 || v[1] == '/');
    match home {
        Some(h) => {
            if tilde {
                let mut k: usize = 1;
                assert(v@.subrange(1, v@.len() as int) == v@.drop_first());
                while k < v.len() && v[k] == '/'
                    invariant
                        1 <= k <= v@.len(),
                        drop_slashes(v@.drop_first()) == drop_slashes(
                            v@.subrange(k as int, v@.len() as int),
                        ),
                    decreases v@.len() - k,
                {
                    assert(v@.subrange(k as int, v@.len() as int).drop_first() == v@.subrange(
                        k + 1,
                        v@.len() as int,
                    ));
                    k = k + 1;
                }
                let rest = string_of(&v, k, v.len());
                join_path(h.as_str(), rest.as_str())
            } else {
                string_from(p)
            }
        },
        None => string_from(p),
    }
}

/// The text `format!("{s:?}")` gives a string: quoted, with escapes.
pub uninterp spec fn debug_text(s: Seq<char>) -> Seq<char>;

/// `format!("{s:?}")`: `s` in double quotes with Rust's debug escapes. The
/// escaping rules are std's and are not stated here.
#[verifier::external_body]
fn debug_quoted(s: &str) -> (r: String)
    ensures
        r@ == debug_text(s@),
{
    format!("{s:?}")
}

/// One audit record: the UTC time of `unix_secs`, the action, where and the
/// result, and a quoted detail when there is one; newline-terminated.
pub open spec fn spec_record_line(
    unix_secs: int,
    repo: Seq<char>,
    branch: Seq<char>,
    remote: Seq<char>,
    result: Seq<char>,
    detail: Seq<char>,
) -> Seq<char> {
    spec_rfc3339(unix_secs) + " action=push repo="@ + repo + " branch="@ + branch + " remote="@
        + remote + " result="@ + result + (if detail.len() == 0 {
        Seq::empty()
    } else {
        " detail="@ + debug_text(detail)
    }) + seq!['\n']
}

impl Audit {
    /// The audit sink of a configuration, given `$XDG_STATE_HOME` and `$HOME`.
    pub fn from_config(cfg: &Config, state_home: Option<String>, home: Option<String>) -> (a: Audit)
        ensures
            cfg.audit.enabled ==> a.spec_path() == Some(
                spec_audit_path(opt_text(cfg.audit.log), opt_text(state_home), opt_text(home)),
            ),
            !cfg.audit.enabled ==> a.spec_path() is None,
    {
        let path = if cfg.audit.enabled {
            let p = match &cfg.audit.log {
                Some(p) => expand_tilde(p.as_str(), &home),
                None => {
                    let d = default_state_dir(&state_home, &home);
                    let g = join_path(d.as_str(), "git-redundancy");
                    join_path(g.as_str(), "audit.log")
                },
            };
            Some(p)
        } else {
            None
        };
        Audit { path }
    }

    /// The log file, or none when auditing is disabled.
    pub closed spec fn spec_path(&self) -> Option<Seq<char>> {
        opt_text(self.path)
    }

    /// The log file, or `None` when auditing is disabled.
    pub fn path(&self) -> (p: Option<&str>)
        ensures
            match p {
                Some(s) => self.spec_path() == Some(s@),
                None => self.spec_path() is None,
            },
    {
        match &self.path {
            Some(p) => Some(p.as_str()),
            None => None,
        }
    }

    /// The line one record appends to the log.
    pub fn record_line(
        unix_secs: i64,
        repo: &str,
        branch: &str,
        remote: &str,
        result: &str,
        detail: &str,
    ) -> (line: String)
        ensures
            line@ == spec_record_line(unix_secs as int, repo@, branch@, remote@, result@, detail@),
    {
        let mut line = rfc3339_utc(unix_secs);
        push_str(&mut line, " action=push repo=");
        push_str(&mut line, repo);
        push_str(&mut line, " branch=");
        push_str(&mut line, branch);
        push_str(&mut line, " remote=");
        push_str(&mut line, remote);
        push_str(&mut line, " result=");
        push_str(&mut line, result);
        if !detail.is_empty() {
            push_str(&mut line, " detail=");
            let d = debug_quoted(detail);
            push_str(&mut line, d.as_str());
        }
        crate::text::push_char(&mut line, '\n');
        line
    }

    /// Recording one action: the log file and the line to append to it, or
    /// nothing at all when auditing is disabled.
    pub fn record(
        &self,
        unix_secs: i64,
        repo: &str,
        branch: &str,
        remote: &str,
        result: &str,
        detail: &str,
    ) -> (r: Option<(String, String)>)
        ensures
            match r {
                Some((p, l)) => self.spec_path() == Some(p@) && l@ == spec_record_line(
                    unix_secs as int,
                    repo@,
                    branch@,
                    remote@,
                    result@,
                    detail@,
                ),
                None => self.spec_path() is None,
            },
    {
        match &self.path {
            Some(p) => Some((p.clone(), Audit::record_line(unix_secs, repo, branch, remote, result, detail))),
            None => None,
        }
    }
}

} // verus!
