//! Wire protocol: the closed set of actions, their typed results, and the
//! request / response envelopes exchanged with clients.

use vstd::prelude::*;

use crate::path::{
    has_no_dot_components, join, join_path, normalize, normalize_path, path_components,
    path_starts_with, starts_with,
};

verus! {

/// API wire version. Bumped on breaking protocol changes.
pub const PROTOCOL_VERSION: u32 = 1;

/// API path prefix.
pub const API_PREFIX: &'static str = "/api/v1";

/// Discriminator for [`Action`].
#[derive(Clone, Copy, Debug, PartialEq, Eq, Structural, Hash)]
pub enum ActionKind {
    Write,
    Mkdir,
    Read,
    List,
    Delete,
    Move,
    Copy,
    Edit,
    Grep,
    Tree,
    Stat,
    ProjectInfo,
    Batch,
    GlobList,
}

/// The wire name of each kind.
pub open spec fn kind_name(k: ActionKind) -> Seq<char> {
    match k {
        ActionKind::Write => "write"@,
        ActionKind::Mkdir => "mkdir"@,
        ActionKind::Read => "read"@,
        ActionKind::List => "list"@,
        ActionKind::Delete => "delete"@,
        ActionKind::Move => "move"@,
        ActionKind::Copy => "copy"@,
        ActionKind::Edit => "edit"@,
        ActionKind::Grep => "grep"@,
        ActionKind::Tree => "tree"@,
        ActionKind::Stat => "stat"@,
        ActionKind::ProjectInfo => "project_info"@,
        ActionKind::Batch => "batch"@,
        ActionKind::GlobList => "glob_list"@,
    }
}

impl ActionKind {
    /// The kind's wire name.
    pub fn as_str(self) -> (r: &'static str)
        ensures
            r@ == kind_name(self),
    {
        match self {
            ActionKind::Write => "write",
            ActionKind::Mkdir => "mkdir",
            ActionKind::Read => "read",
            ActionKind::List => "list",
            ActionKind::Delete => "delete",
            ActionKind::Move => "move",
            ActionKind::Copy => "copy",
            ActionKind::Edit => "edit",
            ActionKind::Grep => "grep",
            ActionKind::Tree => "tree",
            ActionKind::Stat => "stat",
            ActionKind::ProjectInfo => "project_info",
            ActionKind::Batch => "batch",
            ActionKind::GlobList => "glob_list",
        }
    }
}

/// Each kind has its own wire name, so a name read back gives the kind.
pub proof fn law_kind_names_distinct(a: ActionKind, b: ActionKind)
    requires
        kind_name(a) == kind_name(b),
    ensures
        a == b,
{
    reveal_strlit("write");
    reveal_strlit("mkdir");
    reveal_strlit("read");
    reveal_strlit("list");
    reveal_strlit("delete");
    reveal_strlit("move");
    reveal_strlit("copy");
    reveal_strlit("edit");
    reveal_strlit("grep");
    reveal_strlit("tree");
    reveal_strlit("stat");
    reveal_strlit("project_info");
    reveal_strlit("batch");
    reveal_strlit("glob_list");
    let x = kind_name(a);
    let y = kind_name(b);
    assert(x.len() == y.len());
    assert(x[0] == y[0]);
    assert(x[x.len() - 1] == y[y.len() - 1]);
}

/// Whether a write replaces or extends the target file.
#[derive(Clone, Copy, Debug, PartialEq, Eq, Structural)]
pub enum WriteLocation {
    Overwrite,
    Append,
}

impl Default for WriteLocation {
    fn default() -> (r: WriteLocation)
        ensures
            r == WriteLocation::Overwrite,
    {
        WriteLocation::Overwrite
    }
}

/// The payload carried by a request. One variant per [`ActionKind`].
#[derive(Debug)]
pub enum Action {
    Write { path: String, content: String, location: WriteLocation },
    Mkdir { path: String },
    Read { path: String, offset: Option<usize>, length: Option<usize> },
    List { path: String },
    Delete { path: String },
    Move { src: String, dst: String },
    Copy { src: String, dst: String },
    Edit {
        path: String,
        search: Option<String>,
        replace: Option<String>,
        regex: Option<bool>,
        replace_all: Option<bool>,
        insert_before: Option<String>,
        insert_after: Option<String>,
        append: Option<bool>,
        prepend: Option<bool>,
        dry_run_diff: Option<bool>,
    },
    Grep { path: String, query: String },
    Tree { path: String },
    Stat { path: String },
    ProjectInfo { path: String },
    Batch { actions: Vec<Action> },
    GlobList { pattern: String },
}

pub open spec fn action_kind(a: Action) -> ActionKind {
    match a {
        Action::Write { .. } => ActionKind::Write,
        Action::Mkdir { .. } => ActionKind::Mkdir,
        Action::Read { .. } => ActionKind::Read,
        Action::List { .. } => ActionKind::List,
        Action::Delete { .. } => ActionKind::Delete,
        Action::Move { .. } => ActionKind::Move,
        Action::Copy { .. } => ActionKind::Copy,
        Action::Edit { .. } => ActionKind::Edit,
        Action::Grep { .. } => ActionKind::Grep,
        Action::Tree { .. } => ActionKind::Tree,
        Action::Stat { .. } => ActionKind::Stat,
        Action::ProjectInfo { .. } => ActionKind::ProjectInfo,
        Action::Batch { .. } => ActionKind::Batch,
        Action::GlobList { .. } => ActionKind::GlobList,
    }
}

impl Action {
    /// The discriminator of this action.
    pub fn kind(&self) -> (r: ActionKind)
        ensures
            r == action_kind(*self),
    {
        match self {
            Action::Write { .. } => ActionKind::Write,
            Action::Mkdir { .. } => ActionKind::Mkdir,
            Action::Read { .. } => ActionKind::Read,
            Action::List { .. } => ActionKind::List,
            Action::Delete { .. } => ActionKind::Delete,
            Action::Move { .. } => ActionKind::Move,
            Action::Copy { .. } => ActionKind::Copy,
            Action::Edit { .. } => ActionKind::Edit,
            Action::Grep { .. } => ActionKind::Grep,
            Action::Tree { .. } => ActionKind::Tree,
            Action::Stat { .. } => ActionKind::Stat,
            Action::ProjectInfo { .. } => ActionKind::ProjectInfo,
            Action::Batch { .. } => ActionKind::Batch,
            Action::GlobList { .. } => ActionKind::GlobList,
        }
    }
}

/// Typed result payload returned for a successful action.
#[derive(Debug)]
#[allow(inconsistent_fields)]
pub enum ActionResponse {
    Write { bytes: usize },
    Mkdir { path: String },
    Delete { removed: usize },
    Move { src: String, dst: String },
    Copy { src: String, dst: String },
    Read(ReadResponse),
    List { entries: Vec<ListEntry> },
    Edit { bytes: usize, matches: usize, diff: Option<String> },
    Grep { matches: Vec<GrepMatch> },
    Tree { root: TreeNode },
    Stat {
        size: u64,
        modified_secs: u64,
        is_dir: bool,
        is_file: bool,
        is_symlink: bool,
        unix_mode: Option<u32>,
    },
    ProjectInfo { is_git: bool, language: Option<String>, build_system: Option<String> },
    Batch { responses: Vec<ActionResponse> },
    GlobList { paths: Vec<String> },
}

/// One line of a file that contains the searched text.
#[derive(Debug)]
pub struct GrepMatch {
    pub file: String,
    pub line: usize,
    pub content: String,
}

/// A node of a directory tree; directories carry their children.
#[derive(Debug)]
pub struct TreeNode {
    pub name: String,
    pub is_dir: bool,
    pub children: Option<Vec<TreeNode>>,
}

/// Contents of a read.
#[derive(Debug)]
pub struct ReadResponse {
    /// UTF-8 decoded contents; a read of binary content fails instead.
    pub content: String,
    pub bytes: usize,
}

/// One entry of a directory listing.
#[derive(Debug)]
pub struct ListEntry {
    pub name: String,
    pub kind: EntryKind,
    pub bytes: u64,
}

#[derive(Clone, Copy, Debug, PartialEq, Eq, Structural)]
pub enum EntryKind {
    File,
    Dir,
    Symlink,
}

/// A single filesystem request issued by an agent.
#[derive(Debug)]
pub struct Request {
    /// Client-generated id; echoed back in the response.
    pub id: u128,
    /// Logical kind of action.
    pub kind: ActionKind,
    /// Actual action payload.
    pub action: Action,
    /// Optional human-readable reason supplied by the agent.
    pub reason: Option<String>,
}

/// A fresh random (version 4) request id (`uuid::Uuid::new_v4`).
/// Nothing is stated of the value: it is random.
#[verifier::external_body]
pub(crate) fn fresh_request_id() -> u128 {
    uuid::Uuid::new_v4().as_u128()
}

impl Request {
    /// A request with a fresh random id and no reason.
    pub fn new(kind: ActionKind, action: Action) -> (r: Request)
        ensures
            r.kind == kind,
            r.action == action,
            r.reason is None,
    {
        Request { id: fresh_request_id(), kind, action, reason: None }
    }

    /// The same request with `reason` attached.
    pub fn with_reason(self, reason: String) -> (r: Request)
        ensures
            r.id == self.id,
            r.kind == self.kind,
            r.action == self.action,
            r.reason == Some(reason),
    {
        Request { reason: Some(reason), ..self }
    }

    pub fn mkdir(path: String) -> (r: Request)
        ensures
            r.kind == ActionKind::Mkdir,
            r.action == (Action::Mkdir { path }),
            r.reason is None,
    {
        Self::new(ActionKind::Mkdir, Action::Mkdir { path })
    }

    pub fn write(path: String, content: String, location: WriteLocation) -> (r: Request)
        ensures
            r.kind == ActionKind::Write,
            r.action == (Action::Write { path, content, location }),
            r.reason is None,
    {
        Self::new(ActionKind::Write, Action::Write { path, content, location })
    }

    pub fn read(path: String) -> (r: Request)
        ensures
            r.kind == ActionKind::Read,
            r.action == (Action::Read { path, offset: None, length: None }),
            r.reason is None,
    {
        Self::new(ActionKind::Read, Action::Read { path, offset: None, length: None })
    }

    pub fn list(path: String) -> (r: Request)
        ensures
            r.kind == ActionKind::List,
            r.action == (Action::List { path }),
            r.reason is None,
    {
        Self::new(ActionKind::List, Action::List { path })
    }

    pub fn delete(path: String) -> (r: Request)
        ensures
            r.kind == ActionKind::Delete,
            r.action == (Action::Delete { path }),
            r.reason is None,
    {
        Self::new(ActionKind::Delete, Action::Delete { path })
    }

    pub fn mv(src: String, dst: String) -> (r: Request)
        ensures
            r.kind == ActionKind::Move,
            r.action == (Action::Move { src, dst }),
            r.reason is None,
    {
        Self::new(ActionKind::Move, Action::Move { src, dst })
    }

    pub fn cp(src: String, dst: String) -> (r: Request)
        ensures
            r.kind == ActionKind::Copy,
            r.action == (Action::Copy { src, dst }),
            r.reason is None,
    {
        Self::new(ActionKind::Copy, Action::Copy { src, dst })
    }
}

/// Every request that a constructor builds carries the kind of its action.
pub proof fn law_constructor_kind_matches(path: String, content: String, location: WriteLocation, src: String, dst: String)
    ensures
        action_kind(Action::Mkdir { path }) == ActionKind::Mkdir,
        action_kind(Action::Write { path, content, location }) == ActionKind::Write,
        action_kind(Action::Read { path, offset: None, length: None }) == ActionKind::Read,
        action_kind(Action::List { path }) == ActionKind::List,
        action_kind(Action::Delete { path }) == ActionKind::Delete,
        action_kind(Action::Move { src, dst }) == ActionKind::Move,
        action_kind(Action::Copy { src, dst }) == ActionKind::Copy,
{
}

/// Daemon response envelope.
#[derive(Debug)]
pub struct Response {
    pub id: u128,
    pub status: ResponseStatus,
    pub result: Option<ActionResponse>,
    pub error: Option<ResponseError>,
}

impl Response {
    /// A successful response carrying `result`.
    pub fn ok(id: u128, result: ActionResponse) -> (r: Response)
        ensures
            r.id == id,
            r.status == ResponseStatus::Success,
            r.result == Some(result),
            r.error is None,
    {
        Response { id, status: ResponseStatus::Success, result: Some(result), error: None }
    }

    /// A failed response carrying `code` and `message`.
    pub fn err(id: u128, code: ErrorCode, message: String) -> (r: Response)
        ensures
            r.id == id,
            r.status == ResponseStatus::Error,
            r.result is None,
            r.error == Some(ResponseError { code, message }),
    {
        Response {
            id,
            status: ResponseStatus::Error,
            result: None,
            error: Some(ResponseError { code, message }),
        }
    }
}

#[derive(Clone, Copy, Debug, PartialEq, Eq, Structural)]
pub enum ResponseStatus {
    Success,
    Error,
}

#[derive(Debug)]
pub struct ResponseError {
    pub code: ErrorCode,
    pub message: String,
}

#[derive(Clone, Copy, Debug, PartialEq, Eq, Structural)]
pub enum ErrorCode {
    BadRequest,
    Unauthorized,
    Forbidden,
    NotFound,
    Conflict,
    InvalidPath,
    PathTraversal,
    Io,
    Internal,
}

/// The result of resolving `input` under `root`: the normalized joined path
/// when it stays under `root`.
pub open spec fn resolve_under_result(root: Seq<char>, input: Seq<char>) -> Option<Seq<char>> {
    let n = normalize_path(join_path(root, input));
    if starts_with(n, root) {
        Some(n)
    } else {
        None
    }
}

/// Resolves a possibly-relative client path against a workspace root.
/// The result never escapes `root`.
pub fn resolve_under(root: &str, input: &str) -> (r: Result<String, &'static str>)
    ensures
        match r {
            Ok(p) => resolve_under_result(root@, input@) == Some(p@),
            Err(m) => resolve_under_result(root@, input@) is None && m@
                == "path escapes workspace root"@,
        },
        r matches Ok(p) ==> starts_with(p@, root@) && has_no_dot_components(path_components(p@)),
{
    let joined = join(root, input);
    let normalized = normalize(joined.as_str());
    if !path_starts_with(normalized.as_str(), root) {
        return Err("path escapes workspace root");
    }
    Ok(normalized)
}

} // verus!
