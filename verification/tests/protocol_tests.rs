use anvaya::api::{
    respond, BatchBody, CustomJson, EditBody, GlobListBody, GrepBody, OnePath, ReadBody, TwoPath,
    WriteBody,
};
use anvaya::errors::{DaemonError, FsError, ResolveError};
use anvaya::protocol::{
    Action, ActionKind, ActionResponse, ErrorCode, Request, Response, ResponseStatus,
    WriteLocation, API_PREFIX, PROTOCOL_VERSION,
};

#[test]
fn kind_wire_names() {
    assert_eq!(ActionKind::Write.as_str(), "write");
    assert_eq!(ActionKind::ProjectInfo.as_str(), "project_info");
    assert_eq!(ActionKind::GlobList.as_str(), "glob_list");
    assert_eq!(ActionKind::Move.as_str(), "move");
    assert_eq!(ActionKind::Copy.as_str(), "copy");
}

#[test]
fn action_kind_matches_variant() {
    assert_eq!(Action::Mkdir { path: "a".into() }.kind(), ActionKind::Mkdir);
    assert_eq!(Action::Batch { actions: vec![] }.kind(), ActionKind::Batch);
    assert_eq!(Action::GlobList { pattern: "*.rs".into() }.kind(), ActionKind::GlobList);
    assert_eq!(
        Action::Grep { path: "a".into(), query: "q".into() }.kind(),
        ActionKind::Grep
    );
}

#[test]
fn constants() {
    assert_eq!(PROTOCOL_VERSION, 1);
    assert_eq!(API_PREFIX, "/api/v1");
    assert_eq!(WriteLocation::default(), WriteLocation::Overwrite);
}

#[test]
fn request_constructors() {
    let r = Request::write("f.txt".into(), "hi".into(), WriteLocation::Append);
    assert_eq!(r.kind, ActionKind::Write);
    assert!(r.reason.is_none());
    match &r.action {
        Action::Write { path, content, location } => {
            assert_eq!(path, "f.txt");
            assert_eq!(content, "hi");
            assert_eq!(*location, WriteLocation::Append);
        }
        _ => panic!("wrong action"),
    }
    let id = r.id;
    let r = r.with_reason("because".into());
    assert_eq!(r.id, id);
    assert_eq!(r.reason.as_deref(), Some("because"));
    assert_eq!(Request::read("a".into()).kind, ActionKind::Read);
    assert_eq!(Request::mv("a".into(), "b".into()).kind, ActionKind::Move);
    assert_eq!(Request::cp("a".into(), "b".into()).kind, ActionKind::Copy);
    assert_eq!(Request::delete("a".into()).kind, ActionKind::Delete);
    assert_eq!(Request::list("a".into()).kind, ActionKind::List);
    assert_eq!(Request::mkdir("a".into()).kind, ActionKind::Mkdir);
}

#[test]
fn request_ids_are_fresh() {
    let a = Request::mkdir("a".into());
    let b = Request::mkdir("a".into());
    assert_ne!(a.id, b.id);
}

#[test]
fn response_envelopes() {
    let ok = Response::ok(7, ActionResponse::Delete { removed: 3 });
    assert_eq!(ok.id, 7);
    assert_eq!(ok.status, ResponseStatus::Success);
    assert!(ok.error.is_none());
    let err = Response::err(8, ErrorCode::NotFound, "gone".into());
    assert_eq!(err.status, ResponseStatus::Error);
    assert!(err.result.is_none());
    let e = err.error.unwrap();
    assert_eq!(e.code, ErrorCode::NotFound);
    assert_eq!(e.message, "gone");
}

#[test]
fn body_requests() {
    let r = WriteBody { path: "p".into(), content: "c".into(), location: WriteLocation::Overwrite }.request();
    assert_eq!(r.kind, ActionKind::Write);
    assert_eq!(OnePath { path: "p".into() }.mkdir_request().kind, ActionKind::Mkdir);
    assert_eq!(OnePath { path: "p".into() }.list_request().kind, ActionKind::List);
    assert_eq!(OnePath { path: "p".into() }.delete_request().kind, ActionKind::Delete);
    assert_eq!(OnePath { path: "p".into() }.tree_request().kind, ActionKind::Tree);
    assert_eq!(OnePath { path: "p".into() }.stat_request().kind, ActionKind::Stat);
    assert_eq!(OnePath { path: "p".into() }.project_info_request().kind, ActionKind::ProjectInfo);
    let r = ReadBody { path: "p".into(), offset: Some(2), length: None }.request();
    match r.action {
        Action::Read { path, offset, length } => {
            assert_eq!(path, "p");
            assert_eq!(offset, Some(2));
            assert_eq!(length, None);
        }
        _ => panic!("wrong action"),
    }
    assert_eq!(TwoPath { src: "a".into(), dst: "b".into() }.move_request().kind, ActionKind::Move);
    assert_eq!(TwoPath { src: "a".into(), dst: "b".into() }.copy_request().kind, ActionKind::Copy);
    let e = EditBody {
        path: "p".into(),
        search: Some("s".into()),
        replace: Some("r".into()),
        regex: None,
        replace_all: None,
        insert_before: None,
        insert_after: None,
        append: None,
        prepend: None,
        dry_run_diff: Some(true),
    }
    .request();
    assert_eq!(e.kind, ActionKind::Edit);
    assert_eq!(GrepBody { path: "p".into(), query: "q".into() }.request().kind, ActionKind::Grep);
    assert_eq!(BatchBody { actions: vec![] }.request().kind, ActionKind::Batch);
    let g = GlobListBody { pattern: "*.md".into() }.request();
    assert_eq!(g.kind, ActionKind::GlobList);
    assert!(g.reason.is_none());
}

#[test]
fn rejection_is_bad_request() {
    let r = CustomJson::<OnePath>::rejection("missing field `path`".into());
    assert_eq!(r.status, ResponseStatus::Error);
    let e = r.error.unwrap();
    assert_eq!(e.code, ErrorCode::BadRequest);
    assert_eq!(e.message, "missing field `path`");
}

#[test]
fn respond_maps_outcomes() {
    let ok = respond(5, Ok(ActionResponse::Write { bytes: 4 }));
    assert_eq!(ok.id, 5);
    assert_eq!(ok.status, ResponseStatus::Success);
    let err = respond(6, Err(DaemonError::Denied));
    assert_eq!(err.status, ResponseStatus::Error);
    let e = err.error.unwrap();
    assert_eq!(e.code, ErrorCode::Forbidden);
    assert_eq!(e.message, "request denied by user");
}

#[test]
fn error_codes_and_messages() {
    let esc = DaemonError::Resolve(ResolveError::Escapes("../x".into()));
    assert_eq!(esc.code(), ErrorCode::PathTraversal);
    assert_eq!(
        esc.message(),
        "path resolution failed: path escapes all configured workspace roots: ../x"
    );
    let inv = DaemonError::Resolve(ResolveError::Invalid(" ".into()));
    assert_eq!(inv.code(), ErrorCode::InvalidPath);
    assert_eq!(DaemonError::Bad("x".into()).code(), ErrorCode::BadRequest);
    assert_eq!(DaemonError::Internal("boom".into()).code(), ErrorCode::Internal);
    assert_eq!(DaemonError::Internal("boom".into()).message(), "internal error: boom");
    assert_eq!(DaemonError::Fs(FsError::NotFound("/a".into())).code(), ErrorCode::NotFound);
    assert_eq!(DaemonError::Fs(FsError::AlreadyExists("/a".into())).code(), ErrorCode::Conflict);
    assert_eq!(DaemonError::Fs(FsError::SamePath).code(), ErrorCode::BadRequest);
    assert_eq!(DaemonError::Fs(FsError::NotDir("/a".into())).code(), ErrorCode::BadRequest);
    assert_eq!(DaemonError::Fs(FsError::Io(std::io::Error::other("x"))).code(), ErrorCode::Io);
    assert_eq!(
        DaemonError::Fs(FsError::Io(std::io::Error::other("x"))).message(),
        "filesystem error: io error: x"
    );
    assert_eq!(FsError::NotFound("/a".into()).message(), "not found: /a");
    assert_eq!(FsError::SamePath.message(), "source and destination are identical");
    let re = DaemonError::Denied.to_response_error();
    assert_eq!(re.code, ErrorCode::Forbidden);
}

#[test]
fn io_errors_keep_their_text() {
    let e = std::io::Error::new(std::io::ErrorKind::Other, "disk on fire");
    match FsError::from_io(e) {
        FsError::Io(err) => {
            assert_eq!(err.kind(), std::io::ErrorKind::Other);
            assert_eq!(err.to_string(), "disk on fire");
        }
        other => panic!("unexpected: {:?}", other),
    }
    let e = std::io::Error::new(std::io::ErrorKind::NotFound, "again");
    match DaemonError::from_io(e) {
        DaemonError::Fs(FsError::Io(err)) => assert_eq!(err.kind(), std::io::ErrorKind::NotFound),
        other => panic!("unexpected: {:?}", other),
    }
    let e = std::io::Error::new(std::io::ErrorKind::PermissionDenied, "no");
    let re = DaemonError::from_io(e).to_response_error();
    assert_eq!(re.code, ErrorCode::Io);
    assert_eq!(re.message, "filesystem error: io error: no");
}
