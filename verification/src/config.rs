//! The configuration: which repos to act on, which remotes to show and push
//! to, the home servers, and the audit log. Config-first: nothing outside what
//! it declares is ever touched.
use vstd::prelude::*;
use crate::text::{contains_string, push_str, string_from, views};

verus! {

/// Push transport behaviour: with `auto`, the `order` remotes are
/// interchangeable paths to the same server, tried in order until one works;
/// otherwise each remote is a destination of its own.
pub struct Transport {
    pub auto: bool,
    pub order: Vec<String>,
}

impl Default for Transport {
    fn default() -> (t: Self)
        ensures
            t.auto,
            t.order@.len() == 0,
    {
        Transport { auto: true, order: Vec::new() }
    }
}

/// Audit-log settings. On by default; `log` overrides the path.
pub struct AuditConfig {
    pub enabled: bool,
    pub log: Option<String>,
}

impl Default for AuditConfig {
    fn default() -> (a: Self)
        ensures
            a.enabled,
            a.log is None,
    {
        AuditConfig { enabled: true, log: None }
    }
}

/// A home server: the directory of bare repos on it and the SSH aliases to
/// reach it. An empty root means "not configured".
pub struct Server {
    pub root: String,
    pub aliases: Vec<String>,
}

impl Default for Server {
    fn default() -> (s: Self)
        ensures
            s.root@.len() == 0,
            s.aliases@.len() == 0,
    {
        Server { root: String::new(), aliases: Vec::new() }
    }
}

/// Everything the tool acts on.
#[derive(Default)]
pub struct Config {
    /// Roots to discover repos *within* (each immediate child holding a `.git`).
    pub roots: Vec<String>,
    /// Explicit repo paths to include in addition to whatever the roots find.
    pub repos: Vec<String>,
    /// Paths to exclude even if found under a root.
    pub exclude: Vec<String>,
    /// Remotes to show as columns / push to, in order. Empty = each repo's own.
    pub default_remotes: Vec<String>,
    /// Push transport behaviour.
    pub transport: Transport,
    /// Audit logging.
    pub audit: AuditConfig,
    /// The primary home server.
    pub server: Server,
    /// The backup home server the primary replicates to.
    pub backup: Server,
    /// Repos (by home or directory name) deliberately left un-redundant.
    pub ignore: Vec<String>,
}

/// `base` joined with `part`, as `PathBuf::join` does on Unix: an absolute
/// `part` replaces `base`; otherwise a `/` goes between them unless `base` is
/// empty or already ends in one.
pub open spec fn path_join(base: Seq<char>, part: Seq<char>) -> Seq<char> {
    if part.len() > 0 && part[0] == '/' {
        part
    } else if base.len() == 0 {
        part
    } else if base.last() == '/' {
        base + part
    } else {
        base + seq!['/'] + part
    }
}

/// `base` joined with `part`.
pub fn join_path(base: &str, part: &str) -> (r: String)
    ensures
        r@ == path_join(base@, part@),
{
    if !part.is_empty() {
        let pv = crate::text::chars_of(part);
        if pv[0] == '/' {
            return string_from(part);
        }
    }
    let mut r = string_from(base);
    if !base.is_empty() {
        let v = crate::text::chars_of(base);
        if v[v.len() - 1] != '/' {
            crate::text::push_char(&mut r, '/');
        }
    }
    push_str(&mut r, part);
    r
}

/// A set environment variable's value, unless it is empty.
pub open spec fn non_empty(v: Option<Seq<char>>) -> Option<Seq<char>> {
    match v {
        Some(s) => if s.len() > 0 {
            Some(s)
        } else {
            None
        },
        None => None,
    }
}

/// The text of an optional string.
pub open spec fn opt_text(v: Option<String>) -> Option<Seq<char>> {
    match v {
        Some(s) => Some(s@),
        None => None,
    }
}

/// `$XDG_CONFIG_HOME/git-redundancy/config.toml`, falling back to
/// `$HOME/.config/...`, then to the relative `.config/...`.
pub open spec fn spec_config_path(xdg_config_home: Option<Seq<char>>, home: Option<Seq<char>>) -> Seq<char> {
    let base = match non_empty(xdg_config_home) {
        Some(x) => x,
        None => match home {
            Some(h) => path_join(h, ".config"@),
            None => ".config"@,
        },
    };
    path_join(path_join(base, "git-redundancy"@), "config.toml"@)
}

impl Config {
    /// Where the configuration lives, given `$XDG_CONFIG_HOME` and `$HOME`.
    pub fn config_path(xdg_config_home: Option<String>, home: Option<String>) -> (p: String)
        ensures
            p@ == spec_config_path(opt_text(xdg_config_home), opt_text(home)),
    {
        let base = match xdg_config_home {
            Some(x) if !x.as_str().is_empty() => x,
            _ => match home {
                Some(h) => join_path(h.as_str(), ".config"),
                None => string_from(".config"),
            },
        };
        let dir = join_path(base.as_str(), "git-redundancy");
        join_path(dir.as_str(), "config.toml")
    }

    /// Nothing configured to act on.
    pub fn is_empty(&self) -> (b: bool)
        ensures
            b == (self.roots@.len() == 0 && self.repos@.len() == 0),
    {
        self.roots.len() == 0 && self.repos.len() == 0
    }

    /// A primary home server is configured.
    pub fn server_enabled(&self) -> (b: bool)
        ensures
            b == (self.server.root@.len() > 0),
    {
        !self.server.root.as_str().is_empty()
    }

    /// A backup home server is configured.
    pub fn backup_enabled(&self) -> (b: bool)
        ensures
            b == (self.backup.root@.len() > 0),
    {
        !self.backup.root.as_str().is_empty()
    }

    /// The repo is deliberately left un-redundant.
    pub fn is_ignored(&self, name: &String) -> (b: bool)
        ensures
            b == views(self.ignore@).contains(name@),
    {
        contains_string(self.ignore.as_slice(), name)
    }
}

} // verus!
