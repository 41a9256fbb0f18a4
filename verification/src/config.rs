//! Daemon configuration: built-in defaults, the values read from the
//! environment, and the validated workspace roots.
//!
//! Workspace roots are deny-by-default: only explicitly listed roots are
//! reachable. Reading the environment, parsing the bind address and looking
//! roots up on disk are the caller's work; this module decides what the
//! results mean.

use vstd::prelude::*;
use vstd::string::StringExecFns;

use crate::errors::ConfigError;
use crate::path::{path_starts_with, starts_with};
use crate::text::{
    decimal, parse_unsigned, parse_usize, push_decimal, split_list, split_trimmed, strings_view,
    text_eq,
};

verus! {

/// A validated workspace root.
#[derive(Debug)]
pub struct WorkspaceRoot {
    /// Canonicalized absolute path.
    pub abs: String,
    /// Human label used in approval prompts and logs.
    pub label: String,
}

/// What the filesystem said about a configured root path.
#[derive(Debug)]
pub enum RootProbe {
    /// The path does not exist.
    Missing,
    /// The path exists; its canonical absolute form.
    Canonical(String),
    /// The path exists but could not be canonicalized; the error text.
    Failed(String),
}

/// The error (if any) that a probe of `path` stands for.
pub open spec fn probe_error_matches(e: ConfigError, path: Seq<char>, probe: RootProbe) -> bool {
    match probe {
        RootProbe::Missing => e matches ConfigError::RootMissing(p) && p@ == path,
        RootProbe::Failed(msg) => e matches ConfigError::Canonicalize { path: p, source: s }
            && p@ == path && s@ == msg@,
        RootProbe::Canonical(_) => false,
    }
}

impl WorkspaceRoot {
    /// The root for `path`, given what the filesystem said about it.
    pub fn new(path: &str, label: String, probe: RootProbe) -> (r: Result<WorkspaceRoot, ConfigError>)
        ensures
            match r {
                Ok(root) => probe matches RootProbe::Canonical(abs) && root.abs == abs
                    && root.label == label,
                Err(e) => probe_error_matches(e, path@, probe),
            },
    {
        match probe {
            RootProbe::Missing => Err(ConfigError::RootMissing(path.to_owned())),
            RootProbe::Failed(source) => Err(
                ConfigError::Canonicalize { path: path.to_owned(), source },
            ),
            RootProbe::Canonical(abs) => Ok(WorkspaceRoot { abs, label }),
        }
    }

    /// True if `target` lives inside (or equals) this root.
    pub fn contains(&self, target: &str) -> (r: bool)
        ensures
            r == starts_with(target@, self.abs@),
    {
        path_starts_with(target, self.abs.as_str())
    }

    /// A copy of this root.
    pub fn duplicate(&self) -> (r: WorkspaceRoot)
        ensures
            r.abs@ == self.abs@,
            r.label@ == self.label@,
    {
        WorkspaceRoot { abs: self.abs.clone(), label: self.label.clone() }
    }
}

/// Daemon configuration.
#[derive(Debug)]
pub struct Config {
    /// `host:port` to bind the HTTP server on.
    pub bind: String,
    /// Workspace roots, as configured.
    pub roots: Vec<String>,
    /// When true, requests are approved automatically (development only).
    pub auto_approve: bool,
    /// Maximum request body size in bytes.
    pub body_limit_bytes: usize,
    /// Origin allow-list for CORS. Empty allows any origin.
    pub allowed_origins: Vec<String>,
}

/// The values of the recognized environment variables, where set.
#[derive(Debug)]
pub struct EnvSettings {
    /// `ANVAYA_BIND`
    pub bind: Option<String>,
    /// `ANVAYA_WORKSPACE`, `;`-separated roots
    pub workspace: Option<String>,
    /// `ANVAYA_AUTO_APPROVE`
    pub auto_approve: Option<String>,
    /// `ANVAYA_BODY_LIMIT`, in bytes
    pub body_limit: Option<String>,
    /// `ANVAYA_ALLOWED_ORIGINS`, `;`-separated origins
    pub allowed_origins: Option<String>,
}

pub open spec fn default_bind_text() -> Seq<char> {
    "127.0.0.1:7878"@
}

pub open spec fn default_body_limit_bytes() -> nat {
    16 * 1024 * 1024
}

/// The bind address used when none is configured.
pub fn default_bind() -> (r: String)
    ensures
        r@ == default_bind_text(),
{
    "127.0.0.1:7878".to_owned()
}

/// The body size limit used when none is configured: 16 MiB.
pub fn default_body_limit() -> (r: usize)
    ensures
        r == default_body_limit_bytes(),
{
    16 * 1024 * 1024
}

impl Default for Config {
    fn default() -> (r: Config)
        ensures
            r.bind@ == default_bind_text(),
            r.roots@.len() == 0,
            !r.auto_approve,
            r.body_limit_bytes == default_body_limit_bytes(),
            r.allowed_origins@.len() == 0,
    {
        Config {
            bind: default_bind(),
            roots: Vec::new(),
            auto_approve: false,
            body_limit_bytes: default_body_limit(),
            allowed_origins: Vec::new(),
        }
    }
}

/// Values of `ANVAYA_AUTO_APPROVE` that turn auto approval on.
pub open spec fn is_enabling_flag(v: Seq<char>) -> bool {
    v == "1"@ || v == "true"@ || v == "TRUE"@ || v == "yes"@
}

/// `ANVAYA_AUTO_APPROVE` turns auto approval on exactly for the values
/// `1`, `true`, `TRUE` and `yes`.
pub proof fn law_auto_approve_values(v: Seq<char>)
    ensures
        is_enabling_flag(v) <==> (v == "1"@ || v == "true"@ || v == "TRUE"@ || v == "yes"@),
{
}

/// `v` read as a `usize`, if it is one.
pub open spec fn parsed_usize(v: Seq<char>) -> Option<nat> {
    match parse_unsigned(v) {
        Some(n) => if n <= usize::MAX {
            Some(n)
        } else {
            None
        },
        None => None,
    }
}

/// `root` is the `i`-th root, built from a canonical probe.
pub open spec fn root_built(probe: RootProbe, root: WorkspaceRoot, i: nat) -> bool {
    probe matches RootProbe::Canonical(abs) && root.abs@ == abs@ && root.label@ == root_label(i)
}

/// The label of the `i`-th root.
pub open spec fn root_label(i: nat) -> Seq<char> {
    "root-"@ + decimal(i)
}

fn clone_strings(v: &Vec<String>) -> (r: Vec<String>)
    ensures
        strings_view(r@) == strings_view(v@),
{
    let mut out: Vec<String> = Vec::new();
    let mut i: usize = 0;
    while i < v.len()
        invariant
            i <= v.len(),
            out@.len() == i,
            forall|j: int| 0 <= j < i ==> out@[j]@ == v@[j]@,
        decreases v.len() - i,
    {
        out.push(v[i].clone());
        i = i + 1;
    }
    assert(strings_view(out@) =~= strings_view(v@));
    out
}

fn enabling_flag(v: &str) -> (r: bool)
    ensures
        r == is_enabling_flag(v@),
{
    text_eq(v, "1") || text_eq(v, "true") || text_eq(v, "TRUE") || text_eq(v, "yes")
}

impl Config {
    /// The configuration the environment describes, before validation:
    /// each variable that is set overrides its default; a body limit that
    /// is not a `usize` is ignored.
    pub fn from_settings(env: &EnvSettings) -> (r: Config)
        ensures
            r.bind@ == match env.bind {
                Some(b) => b@,
                None => default_bind_text(),
            },
            strings_view(r.roots@) == match env.workspace {
                Some(w) => split_list(w@, ';'),
                None => Seq::empty(),
            },
            r.auto_approve == match env.auto_approve {
                Some(v) => is_enabling_flag(v@),
                None => false,
            },
            r.body_limit_bytes == match env.body_limit {
                Some(v) => match parsed_usize(v@) {
                    Some(n) => n,
                    None => default_body_limit_bytes(),
                },
                None => default_body_limit_bytes(),
            },
            strings_view(r.allowed_origins@) == match env.allowed_origins {
                Some(o) => split_list(o@, ';'),
                None => Seq::empty(),
            },
    {
        let mut cfg = Config::default();
        assert(strings_view(cfg.roots@) =~= Seq::<Seq<char>>::empty());
        assert(strings_view(cfg.allowed_origins@) =~= Seq::<Seq<char>>::empty());
        if let Some(b) = &env.bind {
            cfg.bind = b.clone();
        }
        if let Some(ws) = &env.workspace {
            cfg.roots = split_trimmed(ws.as_str(), ';');
        }
        if let Some(v) = &env.auto_approve {
            cfg.auto_approve = enabling_flag(v.as_str());
        }
        if let Some(v) = &env.body_limit {
            if let Some(n) = parse_usize(v.as_str()) {
                cfg.body_limit_bytes = n;
            }
        }
        if let Some(v) = &env.allowed_origins {
            cfg.allowed_origins = split_trimmed(v.as_str(), ';');
        }
        cfg
    }

    /// Resolves the configured roots, given what the filesystem said about
    /// each (`probes[i]` for `roots[i]`). Fails on the first root that is
    /// missing or cannot be canonicalized, or when no root is configured.
    pub fn roots(&self, probes: &Vec<RootProbe>) -> (r: Result<Vec<WorkspaceRoot>, ConfigError>)
        requires
            probes@.len() == self.roots@.len(),
        ensures
            match r {
                Ok(v) => {
                    &&& self.roots@.len() > 0
                    &&& v@.len() == self.roots@.len()
                    &&& forall|i: int|
                        0 <= i < v@.len() ==> root_built(#[trigger] probes@[i], v@[i], i as nat)
                },
                Err(e) => {
                    ||| self.roots@.len() == 0 && e is NoRoots
                    ||| exists|i: int|
                        0 <= i < self.roots@.len() && (forall|j: int|
                            0 <= j < i ==> #[trigger] probes@[j] is Canonical) && probe_error_matches(
                            e,
                            self.roots@[i]@,
                            probes@[i],
                        )
                },
            },
    {
        if self.roots.len() == 0 {
            return Err(ConfigError::NoRoots);
        }
        let mut out: Vec<WorkspaceRoot> = Vec::new();
        let mut i: usize = 0;
        while i < self.roots.len()
            invariant
                probes@.len() == self.roots@.len(),
                self.roots@.len() > 0,
                i <= self.roots@.len(),
                out@.len() == i,
                forall|j: int| 0 <= j < i ==> root_built(#[trigger] probes@[j], out@[j], j as nat),
            decreases self.roots.len() - i,
        {
            let mut label = "root-".to_owned();
            push_decimal(&mut label, i);
            let probe = match &probes[i] {
                RootProbe::Missing => RootProbe::Missing,
                RootProbe::Canonical(a) => RootProbe::Canonical(a.clone()),
                RootProbe::Failed(m) => RootProbe::Failed(m.clone()),
            };
            let ghost pv = probe;
            match WorkspaceRoot::new(self.roots[i].as_str(), label, probe) {
                Ok(root) => {
                    out.push(root);
                },
                Err(e) => {
                    assert(forall|j: int| 0 <= j < i ==> #[trigger] probes@[j] is Canonical);
                    assert(probe_error_matches(e, self.roots@[i as int]@, probes@[i as int])) by {
                        match probes@[i as int] {
                            RootProbe::Missing => {},
                            RootProbe::Failed(m) => {
                                assert(pv matches RootProbe::Failed(m2) && m2@ == m@);
                            },
                            RootProbe::Canonical(_) => {},
                        }
                    }
                    return Err(e);
                },
            }
            i = i + 1;
        }
        Ok(out)
    }

    /// Checks the configuration: the bind address must parse (as the caller
    /// found) and every root must resolve.
    pub fn validate(&self, bind_parses: bool, probes: &Vec<RootProbe>) -> (r: Result<Config, ConfigError>)
        requires
            probes@.len() == self.roots@.len(),
        ensures
            !bind_parses ==> (r matches Err(ConfigError::BadAddress(a)) && a@ == self.bind@),
            bind_parses ==> (r is Ok <==> (self.roots@.len() > 0 && forall|i: int|
                0 <= i < probes@.len() ==> #[trigger] probes@[i] is Canonical)),
            bind_parses ==> (r matches Err(e) ==> {
                ||| self.roots@.len() == 0 && e is NoRoots
                ||| exists|i: int|
                    0 <= i < self.roots@.len() && (forall|j: int|
                        0 <= j < i ==> #[trigger] probes@[j] is Canonical) && probe_error_matches(
                        e,
                        self.roots@[i]@,
                        probes@[i],
                    )
            }),
            r matches Ok(c) ==> c.bind@ == self.bind@ && strings_view(c.roots@) == strings_view(
                self.roots@,
            ) && c.auto_approve == self.auto_approve && c.body_limit_bytes
                == self.body_limit_bytes && strings_view(c.allowed_origins@) == strings_view(
                self.allowed_origins@,
            ),
    {
        if !bind_parses {
            return Err(ConfigError::BadAddress(self.bind.clone()));
        }
        match self.roots(probes) {
            Ok(_) => {},
            Err(e) => {
                proof {
                    if self.roots@.len() > 0 {
                        let i = choose|i: int|
                            0 <= i < self.roots@.len() && (forall|j: int|
                                0 <= j < i ==> #[trigger] probes@[j] is Canonical)
                                && probe_error_matches(e, self.roots@[i]@, probes@[i]);
                        assert(!(probes@[i] is Canonical));
                    }
                }
                return Err(e);
            },
        }
        Ok(
            Config {
                bind: self.bind.clone(),
                roots: clone_strings(&self.roots),
                auto_approve: self.auto_approve,
                body_limit_bytes: self.body_limit_bytes,
                allowed_origins: clone_strings(&self.allowed_origins),
            },
        )
    }
}

} // verus!
