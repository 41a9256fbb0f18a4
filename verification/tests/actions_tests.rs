use anvaya::actions::{
    authorize, bind_paths, check_roots, prepare, resolve_paths, touched_paths, BatchRun, BatchStep,
    Resolved, Saved,
};
use anvaya::approver::Approval;
use anvaya::config::{RootProbe, WorkspaceRoot};
use anvaya::errors::{DaemonError, ResolveError};
use anvaya::policy::PathPolicy;
use anvaya::protocol::{Action, ActionResponse, WriteLocation};

fn policy() -> PathPolicy {
    let root = WorkspaceRoot::new("/w", "w".into(), RootProbe::Canonical("/w".into())).unwrap();
    PathPolicy::new(vec![root])
}

#[test]
fn resolves_every_shape() {
    let p = policy();
    match resolve_paths(&p, &Action::Mkdir { path: "a/b".into() }, None).unwrap() {
        Resolved::One(s) => assert_eq!(s, "/w/a/b"),
        other => panic!("unexpected: {:?}", other),
    }
    match resolve_paths(&p, &Action::Move { src: "a".into(), dst: "/w/b".into() }, None).unwrap() {
        Resolved::Pair(s, d) => {
            assert_eq!(s, "/w/a");
            assert_eq!(d, "/w/b");
        }
        other => panic!("unexpected: {:?}", other),
    }
    match resolve_paths(&p, &Action::GlobList { pattern: "src/*.rs".into() }, None).unwrap() {
        Resolved::One(s) => assert_eq!(s, "/w/src/*.rs"),
        other => panic!("unexpected: {:?}", other),
    }
    let batch = Action::Batch {
        actions: vec![Action::Tree { path: "x".into() }, Action::Copy { src: "a".into(), dst: "b".into() }],
    };
    match resolve_paths(&p, &batch, None).unwrap() {
        Resolved::Batch(v) => {
            assert_eq!(v.len(), 2);
            assert!(matches!(&v[0], Resolved::One(s) if s == "/w/x"));
            assert!(matches!(&v[1], Resolved::Pair(s, d) if s == "/w/a" && d == "/w/b"));
        }
        other => panic!("unexpected: {:?}", other),
    }
}

#[test]
fn batch_fails_on_first_bad_path() {
    let p = policy();
    let batch = Action::Batch {
        actions: vec![
            Action::Stat { path: "ok".into() },
            Action::Delete { path: "../../etc".into() },
            Action::Read { path: " ".into(), offset: None, length: None },
        ],
    };
    match resolve_paths(&p, &batch, None) {
        Err(ResolveError::Escapes(s)) => assert_eq!(s, "../../etc"),
        other => panic!("unexpected: {:?}", other),
    }
}

#[test]
fn pipeline_requires_a_root() {
    let empty = PathPolicy::new(vec![]);
    assert!(matches!(check_roots(&empty), Err(DaemonError::Internal(_))));
    match prepare(&empty, &Action::List { path: "a".into() }, None) {
        Err(DaemonError::Internal(m)) => assert_eq!(m, "no workspace roots configured"),
        other => panic!("unexpected: {:?}", other),
    }
    assert!(check_roots(&policy()).is_ok());
}

#[test]
fn prepare_reports_resolution_errors() {
    match prepare(&policy(), &Action::List { path: "/etc".into() }, None) {
        Err(DaemonError::Resolve(ResolveError::Escapes(s))) => assert_eq!(s, "/etc"),
        other => panic!("unexpected: {:?}", other),
    }
}

#[test]
fn denied_requests_stop() {
    let p = policy();
    let action = Action::Write { path: "f".into(), content: "x".into(), location: WriteLocation::Overwrite };
    let resolved = prepare(&p, &action, None).unwrap();
    assert!(matches!(authorize(Approval::Deny, action, resolved), Err(DaemonError::Denied)));
}

#[test]
fn allowed_requests_are_bound() {
    let p = policy();
    let action = Action::Edit {
        path: "notes/../f.md".into(),
        search: Some("a".into()),
        replace: Some("b".into()),
        regex: None,
        replace_all: None,
        insert_before: None,
        insert_after: None,
        append: None,
        prepend: None,
        dry_run_diff: Some(true),
    };
    let resolved = prepare(&p, &action, None).unwrap();
    match authorize(Approval::Allow, action, resolved).unwrap() {
        Action::Edit { path, search, dry_run_diff, .. } => {
            assert_eq!(path, "/w/f.md");
            assert_eq!(search.as_deref(), Some("a"));
            assert_eq!(dry_run_diff, Some(true));
        }
        other => panic!("unexpected: {:?}", other),
    }
}

#[test]
fn mismatched_resolution_is_internal() {
    let r = bind_paths(Action::Move { src: "a".into(), dst: "b".into() }, Resolved::One("/w/a".into()));
    match r {
        Err(DaemonError::Internal(m)) => assert_eq!(m, "path/server mismatch"),
        other => panic!("unexpected: {:?}", other),
    }
    let ok = bind_paths(Action::Copy { src: "a".into(), dst: "b".into() }, Resolved::Pair("/w/a".into(), "/w/b".into()));
    assert!(matches!(ok, Ok(Action::Copy { src, dst }) if src == "/w/a" && dst == "/w/b"));
}

#[test]
fn batch_runs_in_order_and_undoes_on_failure() {
    let mut run = BatchRun::new(vec![
        Action::Mkdir { path: "/w/d".into() },
        Action::Write { path: "/w/f".into(), content: "x".into(), location: WriteLocation::Overwrite },
        Action::Read { path: "/w/missing.txt".into(), offset: None, length: None },
    ]);
    assert!(matches!(run.take_next(), Some(Action::Mkdir { path }) if path == "/w/d"));
    run = match run.record(
        vec![Saved { path: "/w/d".into(), backup: None }],
        Ok(ActionResponse::Mkdir { path: "/w/d".into() }),
    ) {
        BatchStep::Continue(next) => next,
        other => panic!("unexpected: {:?}", other),
    };
    assert!(matches!(run.take_next(), Some(Action::Write { path, .. }) if path == "/w/f"));
    run = match run.record(
        vec![Saved { path: "/w/f".into(), backup: Some("/tmp/keep-f".into()) }],
        Ok(ActionResponse::Write { bytes: 1 }),
    ) {
        BatchStep::Continue(next) => next,
        other => panic!("unexpected: {:?}", other),
    };
    assert!(matches!(run.take_next(), Some(Action::Read { .. })));
    match run.record(vec![], Err(DaemonError::Denied)) {
        BatchStep::Abort { error, undo } => {
            assert!(matches!(error, DaemonError::Denied));
            assert_eq!(undo.len(), 2);
            assert_eq!(undo[0].path, "/w/f");
            assert_eq!(undo[0].backup.as_deref(), Some("/tmp/keep-f"));
            assert_eq!(undo[1].path, "/w/d");
            assert!(undo[1].backup.is_none());
        }
        other => panic!("unexpected: {:?}", other),
    }

    let mut ok = BatchRun::new(vec![Action::Stat { path: "/w/x".into() }]);
    let _ = ok.take_next();
    ok = match ok.record(vec![], Ok(ActionResponse::Delete { removed: 2 })) {
        BatchStep::Continue(next) => next,
        other => panic!("unexpected: {:?}", other),
    };
    assert!(ok.take_next().is_none());
    match ok.finish() {
        (ActionResponse::Batch { responses }, saved) => {
            assert_eq!(responses.len(), 1);
            assert!(matches!(responses[0], ActionResponse::Delete { removed: 2 }));
            assert!(saved.is_empty());
        }
        other => panic!("unexpected: {:?}", other),
    }
}

#[test]
fn touched_paths_cover_every_change() {
    let batch = Action::Batch {
        actions: vec![
            Action::Move { src: "/w/a".into(), dst: "/w/b".into() },
            Action::Read { path: "/w/r".into(), offset: None, length: None },
            Action::Batch { actions: vec![Action::Delete { path: "/w/c".into() }] },
            Action::Copy { src: "/w/s".into(), dst: "/w/t".into() },
            Action::Edit {
                path: "/w/e".into(),
                search: None,
                replace: None,
                regex: None,
                replace_all: None,
                insert_before: None,
                insert_after: None,
                append: None,
                prepend: None,
                dry_run_diff: Some(true),
            },
        ],
    };
    assert_eq!(
        touched_paths(&batch),
        vec!["/w/a".to_string(), "/w/b".to_string(), "/w/c".to_string(), "/w/t".to_string()]
    );
    assert!(touched_paths(&Action::Tree { path: "/w".into() }).is_empty());
}
