//! The HTTP surface's own logic: the bare bodies accepted by the REST-style
//! endpoints, the request each endpoint makes of its body, and the response
//! envelope that the central dispatch sends back.

use vstd::prelude::*;

use crate::errors::{daemon_error_code, shows_daemon_error, DaemonError};
use crate::protocol::{
    fresh_request_id, Action, ActionKind, ActionResponse, ErrorCode, Request, Response, ResponseError,
    ResponseStatus, WriteLocation,
};

verus! {

/// A JSON body extractor whose rejection is answered with a protocol error.
pub struct CustomJson<T>(pub T);

impl<T> CustomJson<T> {
    /// The response sent when a body cannot be parsed: a `BadRequest` error
    /// under a fresh id, carrying the parser's message.
    pub fn rejection(message: String) -> (r: Response)
        ensures
            r.status == ResponseStatus::Error,
            r.result is None,
            r.error == Some(ResponseError { code: ErrorCode::BadRequest, message }),
    {
        Response::err(fresh_request_id(), ErrorCode::BadRequest, message)
    }
}

/// Body of the endpoints that act on one path.
#[derive(Debug)]
pub struct OnePath {
    pub path: String,
}

/// Body of `/read`.
#[derive(Debug)]
pub struct ReadBody {
    pub path: String,
    pub offset: Option<usize>,
    pub length: Option<usize>,
}

/// Body of `/move` and `/copy`.
#[derive(Debug)]
pub struct TwoPath {
    pub src: String,
    pub dst: String,
}

/// Body of `/write`; `content` and `location` may be left out.
#[derive(Debug)]
pub struct WriteBody {
    pub path: String,
    pub content: String,
    pub location: WriteLocation,
}

/// Body of `/edit`.
#[derive(Debug)]
pub struct EditBody {
    pub path: String,
    pub search: Option<String>,
    pub replace: Option<String>,
    pub regex: Option<bool>,
    pub replace_all: Option<bool>,
    pub insert_before: Option<String>,
    pub insert_after: Option<String>,
    pub append: Option<bool>,
    pub prepend: Option<bool>,
    pub dry_run_diff: Option<bool>,
}

/// Body of `/grep`.
#[derive(Debug)]
pub struct GrepBody {
    pub path: String,
    pub query: String,
}

/// Body of `/batch`.
#[derive(Debug)]
pub struct BatchBody {
    pub actions: Vec<Action>,
}

/// Body of `/glob_list`.
#[derive(Debug)]
pub struct GlobListBody {
    pub pattern: String,
}

/// The request an endpoint makes of its body: the action, its kind, a fresh
/// id and no reason.
pub open spec fn minted(r: Request, action: Action) -> bool {
    &&& r.kind == crate::protocol::action_kind(action)
    &&& r.action == action
    &&& r.reason is None
}

impl WriteBody {
    pub fn request(self) -> (r: Request)
        ensures
            minted(r, Action::Write { path: self.path, content: self.content, location: self.location }),
    {
        Request::new(
            ActionKind::Write,
            Action::Write { path: self.path, content: self.content, location: self.location },
        )
    }
}

impl OnePath {
    pub fn mkdir_request(self) -> (r: Request)
        ensures
            minted(r, Action::Mkdir { path: self.path }),
    {
        Request::new(ActionKind::Mkdir, Action::Mkdir { path: self.path })
    }

    pub fn list_request(self) -> (r: Request)
        ensures
            minted(r, Action::List { path: self.path }),
    {
        Request::new(ActionKind::List, Action::List { path: self.path })
    }

    pub fn delete_request(self) -> (r: Request)
        ensures
            minted(r, Action::Delete { path: self.path }),
    {
        Request::new(ActionKind::Delete, Action::Delete { path: self.path })
    }

    pub fn tree_request(self) -> (r: Request)
        ensures
            minted(r, Action::Tree { path: self.path }),
    {
        Request::new(ActionKind::Tree, Action::Tree { path: self.path })
    }

    pub fn stat_request(self) -> (r: Request)
        ensures
            minted(r, Action::Stat { path: self.path }),
    {
        Request::new(ActionKind::Stat, Action::Stat { path: self.path })
    }

    pub fn project_info_request(self) -> (r: Request)
        ensures
            minted(r, Action::ProjectInfo { path: self.path }),
    {
        Request::new(ActionKind::ProjectInfo, Action::ProjectInfo { path: self.path })
    }
}

impl ReadBody {
    pub fn request(self) -> (r: Request)
        ensures
            minted(r, Action::Read { path: self.path, offset: self.offset, length: self.length }),
    {
        Request::new(
            ActionKind::Read,
            Action::Read { path: self.path, offset: self.offset, length: self.length },
        )
    }
}

impl TwoPath {
    pub fn move_request(self) -> (r: Request)
        ensures
            minted(r, Action::Move { src: self.src, dst: self.dst }),
    {
        Request::new(ActionKind::Move, Action::Move { src: self.src, dst: self.dst })
    }

    pub fn copy_request(self) -> (r: Request)
        ensures
            minted(r, Action::Copy { src: self.src, dst: self.dst }),
    {
        Request::new(ActionKind::Copy, Action::Copy { src: self.src, dst: self.dst })
    }
}

impl EditBody {
    pub fn request(self) -> (r: Request)
        ensures
            minted(
                r,
                Action::Edit {
                    path: self.path,
                    search: self.search,
                    replace: self.replace,
                    regex: self.regex,
                    replace_all: self.replace_all,
                    insert_before: self.insert_before,
                    insert_after: self.insert_after,
                    append: self.append,
                    prepend: self.prepend,
                    dry_run_diff: self.dry_run_diff,
                },
            ),
    {
        Request::new(
            ActionKind::Edit,
            Action::Edit {
                path: self.path,
                search: self.search,
                replace: self.replace,
                regex: self.regex,
                replace_all: self.replace_all,
                insert_before: self.insert_before,
                insert_after: self.insert_after,
                append: self.append,
                prepend: self.prepend,
                dry_run_diff: self.dry_run_diff,
            },
        )
    }
}

impl GrepBody {
    pub fn request(self) -> (r: Request)
        ensures
            minted(r, Action::Grep { path: self.path, query: self.query }),
    {
        Request::new(ActionKind::Grep, Action::Grep { path: self.path, query: self.query })
    }
}

impl BatchBody {
    pub fn request(self) -> (r: Request)
        ensures
            minted(r, Action::Batch { actions: self.actions }),
    {
        Request::new(ActionKind::Batch, Action::Batch { actions: self.actions })
    }
}

impl GlobListBody {
    pub fn request(self) -> (r: Request)
        ensures
            minted(r, Action::GlobList { pattern: self.pattern }),
    {
        Request::new(ActionKind::GlobList, Action::GlobList { pattern: self.pattern })
    }
}

/// The envelope sent back for request `id`: the result on success, and on
/// failure the error's protocol code and message.
pub fn respond(id: u128, outcome: Result<ActionResponse, DaemonError>) -> (r: Response)
    ensures
        r.id == id,
        match outcome {
            Ok(result) => {
                &&& r.status == ResponseStatus::Success
                &&& r.result == Some(result)
                &&& r.error is None
            },
            Err(e) => {
                &&& r.status == ResponseStatus::Error
                &&& r.result is None
                &&& r.error is Some
                &&& r.error->0.code == daemon_error_code(e)
                &&& shows_daemon_error(r.error->0.message@, e)
            },
        },
{
    match outcome {
        Ok(result) => Response::ok(id, result),
        Err(err) => {
            let e = err.to_response_error();
            Response::err(id, e.code, e.message)
        },
    }
}

} // verus!
