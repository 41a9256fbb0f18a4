//! The request pipeline: resolve → approve → execute.
//!
//! Every request flows through here in this order: the path policy
//! resolves and validates each client path, the approver may deny, and only
//! then is the action bound to its resolved paths for the filesystem to
//! run. Awaiting the approver and touching the disk are the caller's work.

use vstd::prelude::*;

use crate::approver::Approval;
use crate::errors::{DaemonError, ResolveError};
use crate::path::{has_no_dot_components, path_components};
use crate::policy::{
    law_resolution_stays_under_roots, opt_view, resolve_matches, resolve_outcome, under_some_root,
    PathPolicy, ResolveOutcome,
};
use crate::fs::flag;
use crate::protocol::{Action, ActionResponse};
use crate::text::strings_view;

verus! {

/// Pre-resolved and validated paths for an action.
#[derive(Debug)]
pub enum Resolved {
    One(String),
    Pair(String, String),
    Batch(Vec<Resolved>),
}

/// A resolution failure: the client path and why it failed.
pub enum FailureView {
    Escapes(Seq<char>),
    Invalid(Seq<char>),
}

pub open spec fn error_view(e: ResolveError) -> FailureView {
    match e {
        ResolveError::Escapes(s) => FailureView::Escapes(s@),
        ResolveError::Invalid(s) => FailureView::Invalid(s@),
    }
}

/// The failure of resolving one client path, if it fails.
pub open spec fn path_failure(roots: Seq<Seq<char>>, home: Option<Seq<char>>, p: Seq<char>) -> Option<
    FailureView,
> {
    match resolve_outcome(roots, p, home) {
        ResolveOutcome::Resolved(_) => None,
        ResolveOutcome::Escapes => Some(FailureView::Escapes(p)),
        ResolveOutcome::Invalid => Some(FailureView::Invalid(p)),
    }
}

/// The client path of a single-path action (a glob's pattern counts).
pub open spec fn single_path(a: Action) -> Option<Seq<char>> {
    match a {
        Action::Write { path, .. } => Some(path@),
        Action::Mkdir { path } => Some(path@),
        Action::Read { path, .. } => Some(path@),
        Action::List { path } => Some(path@),
        Action::Delete { path } => Some(path@),
        Action::Edit { path, .. } => Some(path@),
        Action::Grep { path, .. } => Some(path@),
        Action::Tree { path } => Some(path@),
        Action::Stat { path } => Some(path@),
        Action::ProjectInfo { path } => Some(path@),
        Action::GlobList { pattern } => Some(pattern@),
        _ => None,
    }
}

/// The first failure met when resolving the paths of `a` in order
/// (depth first, a source before its destination), if any. For a batch,
/// only its actions from index `k` on are looked at.
pub open spec fn failure_from(roots: Seq<Seq<char>>, home: Option<Seq<char>>, a: Action, k: nat) -> Option<
    FailureView,
>
    decreases a, batch_len(a) - k,
{
    match a {
        Action::Move { src, dst } => if path_failure(roots, home, src@) is Some {
            path_failure(roots, home, src@)
        } else {
            path_failure(roots, home, dst@)
        },
        Action::Copy { src, dst } => if path_failure(roots, home, src@) is Some {
            path_failure(roots, home, src@)
        } else {
            path_failure(roots, home, dst@)
        },
        Action::Batch { actions } => {
            if k >= actions@.len() {
                None
            } else {
                let f = failure_from(roots, home, actions@[k as int], 0);
                if f is Some {
                    f
                } else {
                    failure_from(roots, home, a, k + 1)
                }
            }
        },
        _ => path_failure(roots, home, single_path(a).unwrap()),
    }
}

pub open spec fn batch_len(a: Action) -> int {
    match a {
        Action::Batch { actions } => actions@.len() as int,
        _ => 0,
    }
}

/// The first failure met when resolving the paths of `a`, if any.
pub open spec fn first_failure(roots: Seq<Seq<char>>, home: Option<Seq<char>>, a: Action) -> Option<
    FailureView,
> {
    failure_from(roots, home, a, 0)
}

/// `r` holds the resolved path of every client path of `a`, in shape.
pub open spec fn resolves_to(roots: Seq<Seq<char>>, home: Option<Seq<char>>, a: Action, r: Resolved) -> bool
    decreases a,
{
    match a {
        Action::Move { src, dst } => r matches Resolved::Pair(s, d) && resolve_outcome(
            roots,
            src@,
            home,
        ) == ResolveOutcome::Resolved(s@) && resolve_outcome(roots, dst@, home)
            == ResolveOutcome::Resolved(d@),
        Action::Copy { src, dst } => r matches Resolved::Pair(s, d) && resolve_outcome(
            roots,
            src@,
            home,
        ) == ResolveOutcome::Resolved(s@) && resolve_outcome(roots, dst@, home)
            == ResolveOutcome::Resolved(d@),
        Action::Batch { actions } => r matches Resolved::Batch(v) && v@.len() == actions@.len()
            && forall|i: int|
            0 <= i < actions@.len() ==> resolves_to(roots, home, actions@[i], #[trigger] v@[i]),
        _ => r matches Resolved::One(p) && resolve_outcome(roots, single_path(a).unwrap(), home)
            == ResolveOutcome::Resolved(p@),
    }
}


/// `r` has the shape `a` needs: one path, a pair, or one entry per
/// action of a batch.
pub open spec fn shape_matches(a: Action, r: Resolved) -> bool
    decreases a,
{
    match a {
        Action::Move { .. } => r is Pair,
        Action::Copy { .. } => r is Pair,
        Action::Batch { actions } => r matches Resolved::Batch(v) && v@.len() == actions@.len()
            && forall|i: int|
            0 <= i < actions@.len() ==> shape_matches(actions@[i], #[trigger] v@[i]),
        _ => r is One,
    }
}

/// `b` is `a` with its client paths replaced by the resolved paths of `r`.
pub open spec fn bound_to(a: Action, r: Resolved, b: Action) -> bool
    decreases a,
{
    match a {
        Action::Write { content, location, .. } => r matches Resolved::One(p) && b == Action::Write {
            path: p,
            content,
            location,
        },
        Action::Mkdir { .. } => r matches Resolved::One(p) && b == Action::Mkdir { path: p },
        Action::Read { offset, length, .. } => r matches Resolved::One(p) && b == Action::Read {
            path: p,
            offset,
            length,
        },
        Action::List { .. } => r matches Resolved::One(p) && b == Action::List { path: p },
        Action::Delete { .. } => r matches Resolved::One(p) && b == Action::Delete { path: p },
        Action::Move { .. } => r matches Resolved::Pair(s, d) && b == Action::Move { src: s, dst: d },
        Action::Copy { .. } => r matches Resolved::Pair(s, d) && b == Action::Copy { src: s, dst: d },
        Action::Edit {
            search,
            replace,
            regex,
            replace_all,
            insert_before,
            insert_after,
            append,
            prepend,
            dry_run_diff,
            ..
        } => r matches Resolved::One(p) && b == Action::Edit {
            path: p,
            search,
            replace,
            regex,
            replace_all,
            insert_before,
            insert_after,
            append,
            prepend,
            dry_run_diff,
        },
        Action::Grep { query, .. } => r matches Resolved::One(p) && b == Action::Grep {
            path: p,
            query,
        },
        Action::Tree { .. } => r matches Resolved::One(p) && b == Action::Tree { path: p },
        Action::Stat { .. } => r matches Resolved::One(p) && b == Action::Stat { path: p },
        Action::ProjectInfo { .. } => r matches Resolved::One(p) && b == Action::ProjectInfo {
            path: p,
        },
        Action::GlobList { .. } => r matches Resolved::One(p) && b == Action::GlobList {
            pattern: p,
        },
        Action::Batch { actions } => r matches Resolved::Batch(v) && b matches Action::Batch {
            actions: bs,
        } && v@.len() == actions@.len() && bs@.len() == actions@.len() && forall|i: int|
            0 <= i < actions@.len() ==> bound_to(actions@[i], v@[i], #[trigger] bs@[i]),
    }
}

/// `p` lies under some root and holds no `.` or `..` component.
pub open spec fn confined(roots: Seq<Seq<char>>, p: Seq<char>) -> bool {
    under_some_root(roots, p) && has_no_dot_components(path_components(p))
}

/// Every path that action `b` names is confined to the roots.
pub open spec fn paths_confined(roots: Seq<Seq<char>>, b: Action) -> bool
    decreases b,
{
    match b {
        Action::Move { src, dst } => confined(roots, src@) && confined(roots, dst@),
        Action::Copy { src, dst } => confined(roots, src@) && confined(roots, dst@),
        Action::Batch { actions } => forall|i: int|
            0 <= i < actions@.len() ==> paths_confined(roots, #[trigger] actions@[i]),
        _ => confined(roots, single_path(b).unwrap()),
    }
}

/// An action bound to the resolution of its client paths names only paths
/// under the workspace roots, free of `.` and `..`: whatever the client
/// sent, the filesystem is never asked to leave the workspace.
pub proof fn law_bound_paths_are_confined(
    roots: Seq<Seq<char>>,
    home: Option<Seq<char>>,
    a: Action,
    r: Resolved,
    b: Action,
)
    requires
        resolves_to(roots, home, a, r),
        bound_to(a, r, b),
    ensures
        paths_confined(roots, b),
    decreases a,
{
    match a {
        Action::Move { src, dst } => {
            law_resolution_stays_under_roots(roots, src@, home);
            law_resolution_stays_under_roots(roots, dst@, home);
        },
        Action::Copy { src, dst } => {
            law_resolution_stays_under_roots(roots, src@, home);
            law_resolution_stays_under_roots(roots, dst@, home);
        },
        Action::Batch { actions } => {
            let v = r->Batch_0;
            let bs = b->Batch_actions;
            assert forall|i: int| 0 <= i < bs@.len() implies paths_confined(
                roots,
                #[trigger] bs@[i],
            ) by {
                assert(decreases_to!(a => actions@[i]));
                assert(resolves_to(roots, home, actions@[i], v@[i]));
                assert(bound_to(actions@[i], v@[i], bs@[i]));
                law_bound_paths_are_confined(roots, home, actions@[i], v@[i], bs@[i]);
            }
        },
        _ => {
            law_resolution_stays_under_roots(roots, single_path(a).unwrap(), home);
        },
    }
}

fn resolve_one(policy: &PathPolicy, path: &str, home: Option<&str>) -> (r: Result<Resolved, ResolveError>)
    ensures
        match r {
            Ok(res) => path_failure(policy.root_paths(), opt_view(home), path@) is None && (
            res matches Resolved::One(p) && resolve_outcome(
                policy.root_paths(),
                path@,
                opt_view(home),
            ) == ResolveOutcome::Resolved(p@)),
            Err(e) => path_failure(policy.root_paths(), opt_view(home), path@) == Some(
                error_view(e),
            ),
        },
{
    match policy.resolve(path, home) {
        Ok(p) => Ok(Resolved::One(p)),
        Err(e) => Err(e),
    }
}

fn resolve_two(policy: &PathPolicy, src: &str, dst: &str, home: Option<&str>) -> (r: Result<Resolved, ResolveError>)
    ensures
        match r {
            Ok(res) => path_failure(policy.root_paths(), opt_view(home), src@) is None
                && path_failure(policy.root_paths(), opt_view(home), dst@) is None && (
            res matches Resolved::Pair(s, d) && resolve_outcome(
                policy.root_paths(),
                src@,
                opt_view(home),
            ) == ResolveOutcome::Resolved(s@) && resolve_outcome(
                policy.root_paths(),
                dst@,
                opt_view(home),
            ) == ResolveOutcome::Resolved(d@)),
            Err(e) => if path_failure(policy.root_paths(), opt_view(home), src@) is Some {
                path_failure(policy.root_paths(), opt_view(home), src@) == Some(error_view(e))
            } else {
                path_failure(policy.root_paths(), opt_view(home), dst@) == Some(error_view(e))
            },
        },
{
    match policy.resolve_pair(src, dst, home) {
        Ok((s, d)) => Ok(Resolved::Pair(s, d)),
        Err(e) => Err(e),
    }
}

/// Resolves every client path of `action`, stopping at the first that
/// fails.
pub fn resolve_paths(policy: &PathPolicy, action: &Action, home: Option<&str>) -> (r: Result<
    Resolved,
    ResolveError,
>)
    ensures
        match r {
            Ok(res) => first_failure(policy.root_paths(), opt_view(home), *action) is None
                && resolves_to(policy.root_paths(), opt_view(home), *action, res),
            Err(e) => first_failure(policy.root_paths(), opt_view(home), *action) == Some(
                error_view(e),
            ),
        },
    decreases action,
{
    let ghost roots = policy.root_paths();
    let ghost h = opt_view(home);
    match action {
        Action::Write { path, .. } => resolve_one(policy, path.as_str(), home),
        Action::Mkdir { path } => resolve_one(policy, path.as_str(), home),
        Action::Read { path, .. } => resolve_one(policy, path.as_str(), home),
        Action::List { path } => resolve_one(policy, path.as_str(), home),
        Action::Delete { path } => resolve_one(policy, path.as_str(), home),
        Action::Edit { path, .. } => resolve_one(policy, path.as_str(), home),
        Action::Grep { path, .. } => resolve_one(policy, path.as_str(), home),
        Action::Tree { path } => resolve_one(policy, path.as_str(), home),
        Action::Stat { path } => resolve_one(policy, path.as_str(), home),
        Action::ProjectInfo { path } => resolve_one(policy, path.as_str(), home),
        Action::GlobList { pattern } => resolve_one(policy, pattern.as_str(), home),
        Action::Move { src, dst } => resolve_two(policy, src.as_str(), dst.as_str(), home),
        Action::Copy { src, dst } => resolve_two(policy, src.as_str(), dst.as_str(), home),
        Action::Batch { actions } => {
            let mut resolved: Vec<Resolved> = Vec::new();
            let mut i: usize = 0;
            while i < actions.len()
                invariant
                    i <= actions@.len(),
                    resolved@.len() == i,
                    roots == policy.root_paths(),
                    h == opt_view(home),
                    *action == (Action::Batch { actions: *actions }),
                    forall|j: int|
                        0 <= j < i ==> resolves_to(roots, h, actions@[j], #[trigger] resolved@[j]),
                    failure_from(roots, h, *action, 0) == failure_from(roots, h, *action, i as nat),
                decreases actions.len() - i,
            {
                assert(decreases_to!(action => actions@[i as int]));
                match resolve_paths(policy, &actions[i], home) {
                    Ok(res) => {
                        resolved.push(res);
                    },
                    Err(e) => {
                        return Err(e);
                    },
                }
                i = i + 1;
            }
            Ok(Resolved::Batch(resolved))
        },
    }
}

/// Resolving never yields a shape the action cannot be bound to.
pub proof fn law_resolved_shape_matches(
    roots: Seq<Seq<char>>,
    home: Option<Seq<char>>,
    a: Action,
    r: Resolved,
)
    requires
        resolves_to(roots, home, a, r),
    ensures
        shape_matches(a, r),
    decreases a,
{
    match a {
        Action::Batch { actions } => {
            let v = r->Batch_0;
            assert forall|i: int| 0 <= i < actions@.len() implies shape_matches(
                actions@[i],
                #[trigger] v@[i],
            ) by {
                assert(resolves_to(roots, home, actions@[i], v@[i]));
                law_resolved_shape_matches(roots, home, actions@[i], v@[i]);
            }
        },
        _ => {},
    }
}

/// The text of the mismatch error.
pub open spec fn mismatch_text() -> Seq<char> {
    "path/server mismatch"@
}

fn mismatch() -> (r: DaemonError)
    ensures
        r matches DaemonError::Internal(m) && m@ == mismatch_text(),
{
    DaemonError::Internal("path/server mismatch".to_owned())
}

pub open spec fn bound_at(a: Action, r: Resolved, b: Action) -> bool {
    shape_matches(a, r) && bound_to(a, r, b)
}

/// Binds `action` to its resolved paths: the result is the same action
/// with every client path replaced by its resolved path. Fails when the
/// resolution does not have the action's shape.
pub fn bind_paths(action: Action, resolved: Resolved) -> (r: Result<Action, DaemonError>)
    ensures
        match r {
            Ok(b) => shape_matches(action, resolved) && bound_to(action, resolved, b),
            Err(e) => !shape_matches(action, resolved) && (e matches DaemonError::Internal(m)
                && m@ == mismatch_text()),
        },
    decreases action,
{
    let ghost a0 = action;
    let ghost r0 = resolved;
    match action {
        Action::Write { path, content, location } => match resolved {
            Resolved::One(p) => Ok(Action::Write { path: p, content, location }),
            _ => Err(mismatch()),
        },
        Action::Mkdir { path } => match resolved {
            Resolved::One(p) => Ok(Action::Mkdir { path: p }),
            _ => Err(mismatch()),
        },
        Action::Read { path, offset, length } => match resolved {
            Resolved::One(p) => Ok(Action::Read { path: p, offset, length }),
            _ => Err(mismatch()),
        },
        Action::List { path } => match resolved {
            Resolved::One(p) => Ok(Action::List { path: p }),
            _ => Err(mismatch()),
        },
        Action::Delete { path } => match resolved {
            Resolved::One(p) => Ok(Action::Delete { path: p }),
            _ => Err(mismatch()),
        },
        Action::Move { src, dst } => match resolved {
            Resolved::Pair(s, d) => Ok(Action::Move { src: s, dst: d }),
            _ => Err(mismatch()),
        },
        Action::Copy { src, dst } => match resolved {
            Resolved::Pair(s, d) => Ok(Action::Copy { src: s, dst: d }),
            _ => Err(mismatch()),
        },
        Action::Edit {
            path,
            search,
            replace,
            regex,
            replace_all,
            insert_before,
            insert_after,
            append,
            prepend,
            dry_run_diff,
        } => match resolved {
            Resolved::One(p) => Ok(
                Action::Edit {
                    path: p,
                    search,
                    replace,
                    regex,
                    replace_all,
                    insert_before,
                    insert_after,
                    append,
                    prepend,
                    dry_run_diff,
                },
            ),
            _ => Err(mismatch()),
        },
        Action::Grep { path, query } => match resolved {
            Resolved::One(p) => Ok(Action::Grep { path: p, query }),
            _ => Err(mismatch()),
        },
        Action::Tree { path } => match resolved {
            Resolved::One(p) => Ok(Action::Tree { path: p }),
            _ => Err(mismatch()),
        },
        Action::Stat { path } => match resolved {
            Resolved::One(p) => Ok(Action::Stat { path: p }),
            _ => Err(mismatch()),
        },
        Action::ProjectInfo { path } => match resolved {
            Resolved::One(p) => Ok(Action::ProjectInfo { path: p }),
            _ => Err(mismatch()),
        },
        Action::GlobList { pattern } => match resolved {
            Resolved::One(p) => Ok(Action::GlobList { pattern: p }),
            _ => Err(mismatch()),
        },
        Action::Batch { actions } => {
            let mut parts = match resolved {
                Resolved::Batch(v) => v,
                _ => {
                    return Err(mismatch());
                },
            };
            let ghost v0 = parts@;
            if parts.len() != actions.len() {
                return Err(mismatch());
            }
            let ghost acts0 = actions@;
            let n = actions.len();
            let mut rest = actions;
            let mut bound: Vec<Action> = Vec::new();
            let mut i: usize = 0;
            while rest.len() > 0
                invariant
                    a0 == action,
                    r0 == resolved,
                    a0 == (Action::Batch { actions: a0->Batch_actions }),
                    acts0 == a0->Batch_actions@,
                    r0 == Resolved::Batch(r0->Batch_0),
                    v0 == r0->Batch_0@,
                    v0.len() == acts0.len(),
                    acts0.len() == n,
                    i + rest@.len() == acts0.len(),
                    rest@ == acts0.skip(i as int),
                    parts@ == v0.skip(i as int),
                    bound@.len() == i,
                    forall|j: int| 0 <= j < i ==> #[trigger] bound_at(acts0[j], v0[j], bound@[j]),
                decreases rest.len(),
            {
                let act = rest.remove(0);
                let res = parts.remove(0);
                assert(act == acts0[i as int]);
                assert(res == v0[i as int]);
                assert(decreases_to!(a0 => acts0[i as int]));
                let ghost before = bound@;
                let step = bind_paths(act, res);
                match step {
                    Ok(b) => {
                        bound.push(b);
                    },
                    Err(e) => {
                        assert(!shape_matches(acts0[i as int], v0[i as int]));
                        assert(!shape_matches(a0, r0));
                        return Err(e);
                    },
                }
                assert(step matches Ok(b) && bound@ == before.push(b));
                assert forall|j: int| 0 <= j <= i implies #[trigger] bound_at(
                    acts0[j],
                    v0[j],
                    bound@[j],
                ) by {
                    if j < i {
                        assert(bound@[j] == before[j]);
                        assert(bound_at(acts0[j], v0[j], before[j]));
                    }
                }
                assert(rest@ =~= acts0.skip((i + 1) as int));
                assert(parts@ =~= v0.skip((i + 1) as int));
                i = i + 1;
            }
            assert forall|j: int| 0 <= j < acts0.len() implies shape_matches(
                acts0[j],
                #[trigger] v0[j],
            ) by {
                assert(bound_at(acts0[j], v0[j], bound@[j]));
            }
            assert forall|j: int| 0 <= j < acts0.len() implies bound_to(
                acts0[j],
                v0[j],
                #[trigger] bound@[j],
            ) by {
                assert(bound_at(acts0[j], v0[j], bound@[j]));
            }
            let b = Action::Batch { actions: bound };
            assert(shape_matches(a0, r0));
            assert(bound_to(a0, r0, b));
            Ok(b)
        },
    }
}

/// The paths an action may change on disk, in order: those it writes,
/// creates, removes or moves (a dry-run edit changes nothing). Of a batch,
/// the paths of its actions from index `k` on, in order.
pub open spec fn touched_from(a: Action, k: nat) -> Seq<Seq<char>>
    decreases a, batch_len(a) - k,
{
    match a {
        Action::Write { path, .. } => seq![path@],
        Action::Mkdir { path } => seq![path@],
        Action::Delete { path } => seq![path@],
        Action::Move { src, dst } => seq![src@, dst@],
        Action::Copy { dst, .. } => seq![dst@],
        Action::Edit { path, dry_run_diff, .. } => if flag(dry_run_diff, false) {
            Seq::empty()
        } else {
            seq![path@]
        },
        Action::Batch { actions } => if k >= actions@.len() {
            Seq::empty()
        } else {
            touched_from(actions@[k as int], 0) + touched_from(a, k + 1)
        },
        _ => Seq::empty(),
    }
}

/// The paths an action may change on disk.
pub open spec fn touched(a: Action) -> Seq<Seq<char>> {
    touched_from(a, 0)
}

/// The paths `action` may change on disk, in order; a batch step saves
/// each of them before it runs, so that a failed batch can be undone.
pub fn touched_paths(action: &Action) -> (r: Vec<String>)
    ensures
        strings_view(r@) == touched(*action),
    decreases action,
{
    let mut out: Vec<String> = Vec::new();
    match action {
        Action::Write { path, .. } => out.push(path.clone()),
        Action::Mkdir { path } => out.push(path.clone()),
        Action::Delete { path } => out.push(path.clone()),
        Action::Move { src, dst } => {
            out.push(src.clone());
            out.push(dst.clone());
        },
        Action::Copy { dst, .. } => out.push(dst.clone()),
        Action::Edit { path, dry_run_diff, .. } => {
            let dry = match dry_run_diff {
                Some(b) => *b,
                None => false,
            };
            if !dry {
                out.push(path.clone());
            }
        },
        Action::Batch { actions } => {
            let mut i: usize = 0;
            assert(strings_view(out@) =~= Seq::<Seq<char>>::empty());
            while i < actions.len()
                invariant
                    i <= actions@.len(),
                    *action == (Action::Batch { actions: *actions }),
                    strings_view(out@) + touched_from(*action, i as nat) == touched_from(
                        *action,
                        0,
                    ),
                decreases actions.len() - i,
            {
                assert(decreases_to!(action => actions@[i as int]));
                let mut part = touched_paths(&actions[i]);
                let ghost before = strings_view(out@);
                let ghost pv = strings_view(part@);
                out.append(&mut part);
                assert(strings_view(out@) =~= before + pv);
                assert(touched_from(*action, i as nat) == pv + touched_from(
                    *action,
                    (i + 1) as nat,
                ));
                assert(before + pv + touched_from(*action, (i + 1) as nat) =~= before + (pv
                    + touched_from(*action, (i + 1) as nat)));
                i = i + 1;
            }
            assert(strings_view(out@) + touched_from(*action, i as nat) =~= strings_view(out@));
        },
        _ => {},
    }
    assert(strings_view(out@) =~= touched(*action));
    out
}

/// A path as it stood before a batch step changed it: where its earlier
/// contents were put aside, or `None` when nothing was there.
#[derive(Debug)]
pub struct Saved {
    pub path: String,
    pub backup: Option<String>,
}

/// What a batch does after a step.
#[derive(Debug)]
pub enum BatchStep {
    /// The step succeeded; the batch goes on.
    Continue(BatchRun),
    /// The step failed: the batch fails with `error`, after restoring the
    /// saved paths in `undo`, in that order.
    Abort { error: DaemonError, undo: Vec<Saved> },
}

/// A batch being run: its actions run one at a time, in order. Before each
/// step the paths it may change are saved; a failure undoes every step run
/// so far, the failed one included, latest first, so that a batch either
/// succeeds whole or changes nothing.
#[derive(Debug)]
pub struct BatchRun {
    queued: Vec<Action>,
    responses: Vec<ActionResponse>,
    journal: Vec<Saved>,
}

impl BatchRun {
    /// The actions still to run, in run order.
    pub closed spec fn queued(&self) -> Seq<Action> {
        self.queued@
    }

    /// The responses of the actions run so far, in run order.
    pub closed spec fn results(&self) -> Seq<ActionResponse> {
        self.responses@
    }

    /// What the steps run so far saved, in the order they saved it.
    pub closed spec fn journal(&self) -> Seq<Saved> {
        self.journal@
    }

    /// A batch of `actions`, none run yet.
    pub fn new(actions: Vec<Action>) -> (r: BatchRun)
        ensures
            r.queued() == actions@,
            r.results() == Seq::<ActionResponse>::empty(),
            r.journal() == Seq::<Saved>::empty(),
    {
        BatchRun { queued: actions, responses: Vec::new(), journal: Vec::new() }
    }

    /// The next action to run: the first still queued, taken off the queue;
    /// `None` once every action has run.
    pub fn take_next(&mut self) -> (r: Option<Action>)
        ensures
            old(self).queued().len() == 0 ==> r is None && final(self).queued()
                == old(self).queued(),
            old(self).queued().len() > 0 ==> r == Some(old(self).queued()[0])
                && final(self).queued() == old(self).queued().drop_first(),
            final(self).results() == old(self).results(),
            final(self).journal() == old(self).journal(),
    {
        if self.queued.len() == 0 {
            return None;
        }
        let a = self.queued.remove(0);
        assert(self.queued@ =~= old(self).queued@.drop_first());
        Some(a)
    }

    /// Records how the action just taken went, with what was saved before
    /// it ran: a response is kept after the earlier ones; a failure ends
    /// the batch with that failure and the undo of every save so far,
    /// latest first.
    pub fn record(self, saved: Vec<Saved>, outcome: Result<ActionResponse, DaemonError>) -> (r:
        BatchStep)
        ensures
            match outcome {
                Ok(resp) => r matches BatchStep::Continue(next) && next.queued() == self.queued()
                    && next.results() == self.results().push(resp) && next.journal()
                    == self.journal() + saved@,
                Err(e) => r matches BatchStep::Abort { error, undo } && error == e && undo@ == (
                self.journal() + saved@).reverse(),
            },
    {
        let BatchRun { queued, mut responses, mut journal } = self;
        let ghost old_journal = journal@;
        let mut saved = saved;
        journal.append(&mut saved);
        match outcome {
            Ok(resp) => {
                responses.push(resp);
                BatchStep::Continue(BatchRun { queued, responses, journal })
            },
            Err(e) => {
                let ghost all = journal@;
                let mut undo: Vec<Saved> = Vec::new();
                while journal.len() > 0
                    invariant
                        journal@ == all.take(journal@.len() as int),
                        journal@.len() <= all.len(),
                        undo@.len() + journal@.len() == all.len(),
                        forall|i: int|
                            0 <= i < undo@.len() ==> undo@[i] == all[all.len() - 1 - i],
                    decreases journal.len(),
                {
                    let ghost n = journal@.len();
                    let x = journal.pop().unwrap();
                    assert(x == all[n - 1]);
                    undo.push(x);
                    assert(journal@ =~= all.take(journal@.len() as int));
                }
                assert(undo@ =~= all.reverse());
                BatchStep::Abort { error: e, undo }
            },
        }
    }

    /// The response of the whole batch, every response in run order, and
    /// the saves that are no longer needed.
    pub fn finish(self) -> (r: (ActionResponse, Vec<Saved>))
        ensures
            r.0 matches ActionResponse::Batch { responses } && responses@ == self.results(),
            r.1@ == self.journal(),
    {
        (ActionResponse::Batch { responses: self.responses }, self.journal)
    }
}

/// One step of a batch that succeeded: `a` is the first queued action of
/// `before`, and `after` has it off the queue and its response `resp`
/// after the earlier ones.
pub open spec fn stepped(before: BatchRun, a: Action, resp: ActionResponse, after: BatchRun) -> bool {
    &&& before.queued().len() > 0
    &&& a == before.queued()[0]
    &&& after.queued() == before.queued().drop_first()
    &&& after.results() == before.results().push(resp)
}

/// A batch whose steps all succeeded ran its actions in order and answers
/// with their responses in that same order: after `n` steps the `i`-th
/// action run is the batch's `i`-th action, its response is the `i`-th
/// response, and the rest of the batch is still queued.
pub proof fn law_batch_runs_in_order(
    runs: Seq<BatchRun>,
    ran: Seq<Action>,
    resps: Seq<ActionResponse>,
)
    requires
        runs.len() == ran.len() + 1,
        resps.len() == ran.len(),
        runs[0].results() == Seq::<ActionResponse>::empty(),
        forall|i: int|
            0 <= i < ran.len() ==> #[trigger] stepped(runs[i], ran[i], resps[i], runs[i + 1]),
    ensures
        ran.len() <= runs[0].queued().len(),
        ran == runs[0].queued().take(ran.len() as int),
        runs[ran.len() as int].queued() == runs[0].queued().skip(ran.len() as int),
        runs[ran.len() as int].results() == resps,
    decreases ran.len(),
{
    if ran.len() > 0 {
        let n = ran.len() - 1;
        let runs0 = runs.take(n + 1);
        let ran0 = ran.take(n);
        let resps0 = resps.take(n);
        assert forall|i: int| 0 <= i < ran0.len() implies #[trigger] stepped(
            runs0[i],
            ran0[i],
            resps0[i],
            runs0[i + 1],
        ) by {
            assert(stepped(runs[i], ran[i], resps[i], runs[i + 1]));
        }
        law_batch_runs_in_order(runs0, ran0, resps0);
        assert(stepped(runs[n], ran[n], resps[n], runs[n + 1]));
        let q0 = runs[0].queued();
        assert(runs[n].queued() == q0.skip(n));
        assert(ran[n] == q0[n]);
        assert(ran =~= q0.take(n + 1));
        assert(runs[n + 1].queued() =~= q0.skip(n + 1));
        assert(runs[n + 1].results() =~= resps);
    } else {
        assert(runs[0].queued().skip(0) =~= runs[0].queued());
        assert(ran =~= runs[0].queued().take(0));
    }
}

/// Checks that some root is configured before anything else happens.
pub fn check_roots(policy: &PathPolicy) -> (r: Result<(), DaemonError>)
    ensures
        r is Ok <==> policy.root_paths().len() > 0,
        r matches Err(e) ==> (e matches DaemonError::Internal(m) && m@
            == "no workspace roots configured"@),
{
    if policy.is_empty() {
        return Err(DaemonError::Internal("no workspace roots configured".to_owned()));
    }
    Ok(())
}

/// Step 1 of the pipeline: checks that a root is configured and resolves
/// every client path of `action`. Nothing touches the disk.
pub fn prepare(policy: &PathPolicy, action: &Action, home: Option<&str>) -> (r: Result<Resolved, DaemonError>)
    ensures
        policy.root_paths().len() == 0 ==> (r matches Err(DaemonError::Internal(m)) && m@
            == "no workspace roots configured"@),
        policy.root_paths().len() > 0 ==> match r {
            Ok(res) => first_failure(policy.root_paths(), opt_view(home), *action) is None
                && resolves_to(policy.root_paths(), opt_view(home), *action, res),
            Err(DaemonError::Resolve(e)) => first_failure(
                policy.root_paths(),
                opt_view(home),
                *action,
            ) == Some(error_view(e)),
            Err(_) => false,
        },
{
    match check_roots(policy) {
        Ok(()) => {},
        Err(e) => {
            return Err(e);
        },
    }
    match resolve_paths(policy, action, home) {
        Ok(res) => Ok(res),
        Err(e) => Err(DaemonError::Resolve(e)),
    }
}

/// Step 2 of the pipeline: a denied request stops here with `Denied`; an
/// allowed one is bound to its resolved paths for the filesystem to run.
pub fn authorize(approval: Approval, action: Action, resolved: Resolved) -> (r: Result<Action, DaemonError>)
    ensures
        approval == Approval::Deny ==> r matches Err(DaemonError::Denied),
        approval == Approval::Allow ==> match r {
            Ok(b) => shape_matches(action, resolved) && bound_to(action, resolved, b),
            Err(e) => !shape_matches(action, resolved) && (e matches DaemonError::Internal(m)
                && m@ == mismatch_text()),
        },
{
    match approval {
        Approval::Deny => Err(DaemonError::Denied),
        Approval::Allow => bind_paths(action, resolved),
    }
}

/// A request whose paths resolved and that was allowed is always bound:
/// the mismatch error cannot happen in the pipeline.
pub proof fn law_allowed_resolved_request_binds(
    roots: Seq<Seq<char>>,
    home: Option<Seq<char>>,
    a: Action,
    r: Resolved,
)
    requires
        resolves_to(roots, home, a, r),
    ensures
        shape_matches(a, r),
{
    law_resolved_shape_matches(roots, home, a, r);
}

} // verus!
