//! Path resolution and traversal protection: every client path is turned
//! into a normalized absolute path that must live under a workspace root.

use vstd::prelude::*;
use vstd::string::StrSliceExecFns;
use vstd::string::StringExecFns;

use crate::config::WorkspaceRoot;
use crate::errors::ResolveError;
use crate::path::{
    has_no_dot_components, has_root, join, join_path, law_normalize_idempotent,
    law_normalized_has_no_dot_components, lemma_normalized_keeps_root, normalize, normalize_path,
    path_components, path_starts_with, starts_with,
};
use crate::text::{all_white_space, is_blank, is_white_space};

verus! {

/// `~` or a leading `~/` replaced by the home directory, when one is known.
pub open spec fn expand_tilde_spec(input: Seq<char>, home: Option<Seq<char>>) -> Seq<char> {
    if input == seq!['~'] {
        match home {
            Some(h) => h,
            None => input,
        }
    } else if input.len() >= 2 && input[0] == '~' && input[1] == '/' {
        match home {
            Some(h) => h + seq!['/'] + input.skip(2),
            None => input,
        }
    } else {
        input
    }
}

/// Where a client path resolves to.
pub enum ResolveOutcome {
    /// The normalized path, which lies under some root.
    Resolved(Seq<char>),
    /// The normalized path lies under no root.
    Escapes,
    /// The path is blank, or relative with no root to resolve it against.
    Invalid,
}

/// The normalized candidate for `expanded`: absolute paths stand alone,
/// relative ones are joined onto the first root.
pub open spec fn candidate_path(roots: Seq<Seq<char>>, expanded: Seq<char>) -> Seq<char> {
    if has_root(expanded) {
        normalize_path(expanded)
    } else {
        normalize_path(join_path(roots[0], expanded))
    }
}

pub open spec fn under_some_root(roots: Seq<Seq<char>>, p: Seq<char>) -> bool {
    exists|i: int| 0 <= i < roots.len() && starts_with(p, #[trigger] roots[i])
}

pub open spec fn resolve_outcome(
    roots: Seq<Seq<char>>,
    input: Seq<char>,
    home: Option<Seq<char>>,
) -> ResolveOutcome {
    if all_white_space(input) {
        ResolveOutcome::Invalid
    } else {
        let expanded = expand_tilde_spec(input, home);
        if !has_root(expanded) && roots.len() == 0 {
            ResolveOutcome::Invalid
        } else {
            let candidate = candidate_path(roots, expanded);
            if under_some_root(roots, candidate) {
                ResolveOutcome::Resolved(candidate)
            } else {
                ResolveOutcome::Escapes
            }
        }
    }
}

pub open spec fn opt_view(o: Option<&str>) -> Option<Seq<char>> {
    match o {
        Some(s) => Some(s@),
        None => None,
    }
}

/// `r` is what resolving `input` gives: the resolved path, or the error
/// naming `input`.
pub open spec fn resolve_matches(
    r: Result<String, ResolveError>,
    roots: Seq<Seq<char>>,
    input: Seq<char>,
    home: Option<Seq<char>>,
) -> bool {
    match r {
        Ok(p) => resolve_outcome(roots, input, home) == ResolveOutcome::Resolved(p@),
        Err(ResolveError::Escapes(s)) => resolve_outcome(roots, input, home) is Escapes && s@
            == input,
        Err(ResolveError::Invalid(s)) => resolve_outcome(roots, input, home) is Invalid && s@
            == input,
    }
}

/// Expands a leading `~` or `~/` to the home directory. Returns the input
/// unchanged if `~` is not at the start, or if no home directory is known.
pub fn expand_tilde(input: &str, home: Option<&str>) -> (r: String)
    ensures
        r@ == expand_tilde_spec(input@, opt_view(home)),
{
    let n = input.unicode_len();
    if n == 1 && input.get_char(0) == '~' {
        assert(input@ =~= seq!['~']);
        return match home {
            Some(h) => h.to_owned(),
            None => input.to_owned(),
        };
    }
    assert(input@ != seq!['~']) by {
        if input@ == seq!['~'] {
            assert(input@.len() == 1 && input@[0] == '~');
        }
    }
    if n >= 2 && input.get_char(0) == '~' && input.get_char(1) == '/' {
        match home {
            Some(h) => {
                let mut out = h.to_owned();
                proof {
                    reveal_strlit("/");
                }
                out.append("/");
                out.append(input.substring_char(2, n));
                assert(input@.subrange(2, n as int) =~= input@.skip(2));
                return out;
            },
            None => {
                return input.to_owned();
            },
        }
    }
    input.to_owned()
}

/// The home directory: `HOME` when it is set, else `USERPROFILE`; an
/// empty value counts as unknown.
pub fn home_from_vars(home_var: Option<String>, userprofile_var: Option<String>) -> (r: Option<
    String,
>)
    ensures
        ({
            let chosen = if home_var is Some {
                home_var
            } else {
                userprofile_var
            };
            match chosen {
                Some(h) => if h@.len() > 0 {
                    r == Some(h)
                } else {
                    r is None
                },
                None => r is None,
            }
        }),
{
    let chosen = match home_var {
        Some(h) => Some(h),
        None => userprofile_var,
    };
    match chosen {
        Some(h) => {
            if h.as_str().unicode_len() > 0 {
                Some(h)
            } else {
                None
            }
        },
        None => None,
    }
}

/// A resolved path lies under some root and holds no `.` or `..`
/// component: no client path climbs out of the workspace.
pub proof fn law_resolution_stays_under_roots(
    roots: Seq<Seq<char>>,
    input: Seq<char>,
    home: Option<Seq<char>>,
)
    ensures
        resolve_outcome(roots, input, home) matches ResolveOutcome::Resolved(p) ==> under_some_root(
            roots,
            p,
        ) && has_no_dot_components(path_components(p)),
{
    if resolve_outcome(roots, input, home) is Resolved {
        let expanded = expand_tilde_spec(input, home);
        if has_root(expanded) {
            law_normalized_has_no_dot_components(expanded);
        } else {
            law_normalized_has_no_dot_components(join_path(roots[0], expanded));
        }
    }
}

/// With absolute roots, resolving a path that resolution produced gives the
/// same path back, whatever the home directory.
pub proof fn law_resolution_is_stable(
    roots: Seq<Seq<char>>,
    input: Seq<char>,
    home: Option<Seq<char>>,
    later_home: Option<Seq<char>>,
)
    requires
        forall|i: int| 0 <= i < roots.len() ==> has_root(#[trigger] roots[i]),
    ensures
        resolve_outcome(roots, input, home) matches ResolveOutcome::Resolved(p) ==> resolve_outcome(
            roots,
            p,
            later_home,
        ) == ResolveOutcome::Resolved(p),
{
    if resolve_outcome(roots, input, home) is Resolved {
        let expanded = expand_tilde_spec(input, home);
        let base = if has_root(expanded) {
            expanded
        } else {
            let j = join_path(roots[0], expanded);
            assert(has_root(roots[0]));
            assert(j[0] == roots[0][0]);
            j
        };
        assert(has_root(base));
        let p = normalize_path(base);
        assert(candidate_path(roots, expanded) == p);
        lemma_normalized_keeps_root(base);
        law_normalize_idempotent(base);
        assert(!is_white_space(p[0]));
        assert(!all_white_space(p));
        assert(expand_tilde_spec(p, later_home) == p);
        assert(candidate_path(roots, p) == p);
    }
}

/// Resolves client paths against the set of workspace roots.
#[derive(Debug)]
pub struct PathPolicy {
    roots: Vec<WorkspaceRoot>,
}

impl PathPolicy {
    /// The root paths, in order.
    pub closed spec fn root_paths(&self) -> Seq<Seq<char>> {
        self.roots@.map_values(|r: WorkspaceRoot| r.abs@)
    }

    pub fn new(roots: Vec<WorkspaceRoot>) -> (r: PathPolicy)
        ensures
            r.root_paths() == roots@.map_values(|r: WorkspaceRoot| r.abs@),
    {
        PathPolicy { roots }
    }

    pub fn is_empty(&self) -> (r: bool)
        ensures
            r == (self.root_paths().len() == 0),
    {
        self.roots.len() == 0
    }

    /// Resolves `input` to an absolute path that lives under one of the
    /// roots. A relative input resolves against the first root; `~` and a
    /// leading `~/` expand to `home`; an absolute input must match a root.
    /// Lexical `..` is collapsed before the roots check, so the result never
    /// climbs out of the roots, and it holds no `.` or `..` component.
    pub fn resolve(&self, input: &str, home: Option<&str>) -> (r: Result<String, ResolveError>)
        ensures
            resolve_matches(r, self.root_paths(), input@, opt_view(home)),
            r matches Ok(p) ==> under_some_root(self.root_paths(), p@) && has_no_dot_components(
                path_components(p@),
            ),
    {
        if is_blank(input) {
            return Err(ResolveError::Invalid(input.to_owned()));
        }
        let expanded = expand_tilde(input, home);
        let en = expanded.as_str().unicode_len();
        let absolute = en > 0 && expanded.as_str().get_char(0) == '/';
        let candidate = if absolute {
            normalize(expanded.as_str())
        } else {
            if self.roots.len() == 0 {
                return Err(ResolveError::Invalid(input.to_owned()));
            }
            let joined = join(self.roots[0].abs.as_str(), expanded.as_str());
            normalize(joined.as_str())
        };
        assert(candidate@ == candidate_path(self.root_paths(), expanded@));
        let mut i: usize = 0;
        while i < self.roots.len()
            invariant
                i <= self.roots@.len(),
                self.root_paths().len() == self.roots@.len(),
                candidate@ == candidate_path(self.root_paths(), expanded@),
                expanded@ == expand_tilde_spec(input@, opt_view(home)),
                !all_white_space(input@),
                has_root(expanded@) || self.root_paths().len() > 0,
                has_no_dot_components(path_components(candidate@)),
                forall|j: int|
                    0 <= j < i ==> !starts_with(candidate@, #[trigger] self.root_paths()[j]),
            decreases self.roots.len() - i,
        {
            if path_starts_with(candidate.as_str(), self.roots[i].abs.as_str()) {
                assert(self.root_paths()[i as int] == self.roots@[i as int].abs@);
                return Ok(candidate);
            }
            assert(self.root_paths()[i as int] == self.roots@[i as int].abs@);
            i = i + 1;
        }
        Err(ResolveError::Escapes(input.to_owned()))
    }

    /// Resolves two paths (typically `src` and `dst`); fails with the first
    /// failure.
    pub fn resolve_pair(&self, src: &str, dst: &str, home: Option<&str>) -> (r: Result<
        (String, String),
        ResolveError,
    >)
        ensures
            match r {
                Ok((s, d)) => resolve_matches(Ok(s), self.root_paths(), src@, opt_view(home))
                    && resolve_matches(Ok(d), self.root_paths(), dst@, opt_view(home)),
                Err(e) => resolve_matches(Err(e), self.root_paths(), src@, opt_view(home)) || (
                resolve_outcome(self.root_paths(), src@, opt_view(home)) is Resolved
                    && resolve_matches(Err(e), self.root_paths(), dst@, opt_view(home))),
            },
    {
        let s = match self.resolve(src, home) {
            Ok(s) => s,
            Err(e) => return Err(e),
        };
        let d = match self.resolve(dst, home) {
            Ok(d) => d,
            Err(e) => return Err(e),
        };
        Ok((s, d))
    }
}

} // verus!
