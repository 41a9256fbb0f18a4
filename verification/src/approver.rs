//! Approval gate: the decisions of the approvers, the queue of requests that
//! wait for the browser extension, and the one-line summaries shown to the
//! person who decides.

use vstd::prelude::*;
use vstd::string::StringExecFns;
use vstd::utf8::encode_utf8;

use std::collections::HashMap;
use vstd::std_specs::iter::IteratorSpec;

use crate::protocol::{Action, ActionKind, Request, WriteLocation, kind_name};
use crate::text::{ascii_lower, decimal, lower_equals, push_decimal, to_chars, trim, trim_bounds, truncate, truncated};

verus! {

broadcast use vstd::std_specs::hash::group_hash_axioms;

/// The approver's decision for a request.
#[derive(Clone, Copy, Debug, PartialEq, Eq, Structural)]
pub enum Approval {
    Allow,
    Deny,
}

/// The decision that arrived from the extension; a decision that never
/// arrives (the channel closed) denies.
pub fn decision_or_deny(received: Option<Approval>) -> (r: Approval)
    ensures
        r == match received {
            Some(a) => a,
            None => Approval::Deny,
        },
{
    match received {
        Some(a) => a,
        None => Approval::Deny,
    }
}

/// Development-only approver that allows everything.
#[derive(Debug)]
pub struct AutoApprover;

impl AutoApprover {
    pub fn approve(&self, req: &Request) -> (r: Approval)
        ensures
            r == Approval::Allow,
    {
        Approval::Allow
    }
}

// ---------------------------------------------------------------------------
// Summaries
// ---------------------------------------------------------------------------
pub open spec fn opt_text(o: Option<String>) -> Seq<char> {
    match o {
        Some(s) => s@,
        None => Seq::empty(),
    }
}

/// The length of the UTF-8 encoding of `s`, as a `usize` holds it.
pub open spec fn byte_count(s: Seq<char>) -> nat {
    (encode_utf8(s).len() as usize) as nat
}

/// Human-readable one-liner that shows what the agent is asking for.
pub open spec fn summary_text(a: Action) -> Seq<char> {
    match a {
        Action::Write { path, content, location } => "write ("@ + (if location
            == WriteLocation::Append {
            "append"@
        } else {
            "overwrite"@
        }) + ", "@ + decimal(byte_count(content@)) + " bytes) -> "@ + path@,
        Action::Mkdir { path } => "mkdir -> "@ + path@,
        Action::Read { path, .. } => "read <- "@ + path@,
        Action::List { path } => "list <- "@ + path@,
        Action::Delete { path } => "delete ! "@ + path@,
        Action::Move { src, dst } => "move "@ + src@ + " -> "@ + dst@,
        Action::Copy { src, dst } => "copy "@ + src@ + " -> "@ + dst@,
        Action::Edit { path, search, replace, .. } => "edit "@ + path@ + " ("@ + truncated(
            opt_text(search),
            40,
        ) + " -> "@ + truncated(opt_text(replace), 40) + ")"@,
        Action::Grep { path, query } => "grep "@ + truncated(query@, 40) + " -> "@ + path@,
        Action::Tree { path } => "tree <- "@ + path@,
        Action::Stat { path } => "stat <- "@ + path@,
        Action::ProjectInfo { path } => "project_info <- "@ + path@,
        Action::Batch { actions } => "batch ("@ + decimal(actions@.len()) + " actions)"@,
        Action::GlobList { pattern } => "glob_list <- "@ + pattern@,
    }
}

fn text_of(prefix: &str, rest: &str) -> (r: String)
    ensures
        r@ == prefix@ + rest@,
{
    let mut m = prefix.to_owned();
    m.append(rest);
    m
}

fn opt_str(o: &Option<String>) -> (r: &str)
    ensures
        r@ == opt_text(*o),
{
    match o {
        Some(s) => s.as_str(),
        None => {
            proof {
                reveal_strlit("");
            }
            ""
        },
    }
}

/// Human-readable one-liner that shows what the agent is asking for.
pub fn summarize(req: &Request) -> (r: String)
    ensures
        r@ == summary_text(req.action),
{
    match &req.action {
        Action::Write { path, content, location } => {
            let mut m = "write (".to_owned();
            match location {
                WriteLocation::Append => m.append("append"),
                WriteLocation::Overwrite => m.append("overwrite"),
            }
            m.append(", ");
            push_decimal(&mut m, content.as_str().len());
            m.append(" bytes) -> ");
            m.append(path.as_str());
            m
        },
        Action::Mkdir { path } => text_of("mkdir -> ", path.as_str()),
        Action::Read { path, .. } => text_of("read <- ", path.as_str()),
        Action::List { path } => text_of("list <- ", path.as_str()),
        Action::Delete { path } => text_of("delete ! ", path.as_str()),
        Action::Move { src, dst } => {
            let mut m = text_of("move ", src.as_str());
            m.append(" -> ");
            m.append(dst.as_str());
            m
        },
        Action::Copy { src, dst } => {
            let mut m = text_of("copy ", src.as_str());
            m.append(" -> ");
            m.append(dst.as_str());
            m
        },
        Action::Edit { path, search, replace, .. } => {
            let mut m = text_of("edit ", path.as_str());
            m.append(" (");
            let s = truncate(opt_str(search), 40);
            m.append(s.as_str());
            m.append(" -> ");
            let r = truncate(opt_str(replace), 40);
            m.append(r.as_str());
            m.append(")");
            m
        },
        Action::Grep { path, query } => {
            let q = truncate(query.as_str(), 40);
            let mut m = text_of("grep ", q.as_str());
            m.append(" -> ");
            m.append(path.as_str());
            m
        },
        Action::Tree { path } => text_of("tree <- ", path.as_str()),
        Action::Stat { path } => text_of("stat <- ", path.as_str()),
        Action::ProjectInfo { path } => text_of("project_info <- ", path.as_str()),
        Action::Batch { actions } => {
            let mut m = "batch (".to_owned();
            push_decimal(&mut m, actions.len());
            m.append(" actions)");
            m
        },
        Action::GlobList { pattern } => text_of("glob_list <- ", pattern.as_str()),
    }
}

// ---------------------------------------------------------------------------
// Console approver
// ---------------------------------------------------------------------------
pub open spec fn prompt_text(a: Action) -> Seq<char> {
    "\n[anvaya] approval requested:\n  "@ + summary_text(a) + "\nAllow? [y/N/a=always]: "@
}

/// The operator's answer, trimmed and with ASCII letters lowered.
pub open spec fn answer_word(line: Seq<char>) -> Seq<char> {
    ascii_lower(trim(line))
}

/// Answers that allow the request once.
pub open spec fn allows_once(word: Seq<char>) -> bool {
    word == "y"@ || word == "yes"@
}

/// Answers that allow this request and every later one.
pub open spec fn allows_always(word: Seq<char>) -> bool {
    word == "a"@ || word == "always"@
}

/// What the console approver does first for a request.
#[derive(Debug)]
pub enum ConsoleStep {
    /// Decided without asking.
    Decided(Approval),
    /// Show this prompt and read the operator's answer.
    Ask(String),
}

/// Prompts the operator for each request: `y`/`yes` allow, `a`/`always`
/// allow for the rest of the process, anything else denies. Reading and
/// writing the console is the caller's work.
#[derive(Debug)]
pub struct ConsoleApprover {
    always: bool,
}

impl ConsoleApprover {
    /// True once the operator answered `always`.
    pub closed spec fn allows_all(&self) -> bool {
        self.always
    }

    pub fn new() -> (r: ConsoleApprover)
        ensures
            !r.allows_all(),
    {
        ConsoleApprover { always: false }
    }

    /// The first step of approving `req`: once the operator answered
    /// `always`, the request is allowed without asking; otherwise the
    /// operator is asked with the prompt.
    pub fn begin(&self, req: &Request) -> (r: ConsoleStep)
        ensures
            self.allows_all() ==> r matches ConsoleStep::Decided(Approval::Allow),
            !self.allows_all() ==> (r matches ConsoleStep::Ask(p) && p@ == prompt_text(req.action)),
    {
        if self.always {
            return ConsoleStep::Decided(Approval::Allow);
        }
        let mut p = "\n[anvaya] approval requested:\n  ".to_owned();
        let s = summarize(req);
        p.append(s.as_str());
        p.append("\nAllow? [y/N/a=always]: ");
        ConsoleStep::Ask(p)
    }

    /// Records the operator's answer: `None` when no line could be read.
    pub fn answer(&mut self, line: Option<&str>) -> (r: Approval)
        ensures
            match line {
                None => r == Approval::Deny && final(self).allows_all() == old(self).allows_all(),
                Some(l) => {
                    let w = answer_word(l@);
                    &&& r == (if allows_once(w) || allows_always(w) {
                        Approval::Allow
                    } else {
                        Approval::Deny
                    })
                    &&& final(self).allows_all() == (old(self).allows_all() || (!allows_once(w)
                        && allows_always(w)))
                },
            },
    {
        match line {
            None => Approval::Deny,
            Some(l) => {
                let cs = to_chars(l);
                let (a, b) = trim_bounds(&cs);
                let mut word: Vec<char> = Vec::new();
                let mut i = a;
                while i < b
                    invariant
                        a <= i <= b <= cs@.len(),
                        word@ == cs@.subrange(a as int, i as int),
                    decreases b - i,
                {
                    word.push(cs[i]);
                    assert(cs@.subrange(a as int, i as int).push(cs@[i as int]) =~= cs@.subrange(
                        a as int,
                        (i + 1) as int,
                    ));
                    i = i + 1;
                }
                assert(cs@ == l@);
                if lower_equals(&word, "y") || lower_equals(&word, "yes") {
                    Approval::Allow
                } else if lower_equals(&word, "a") || lower_equals(&word, "always") {
                    self.always = true;
                    Approval::Allow
                } else {
                    Approval::Deny
                }
            },
        }
    }
}

impl Default for ConsoleApprover {
    fn default() -> (r: ConsoleApprover)
        ensures
            !r.allows_all(),
    {
        ConsoleApprover::new()
    }
}

/// The console's answers: `y` and `yes` allow the request once; `a` and
/// `always` allow it and every later one; any other answer denies.
pub proof fn law_console_answer_words(w: Seq<char>)
    ensures
        (w == "y"@ || w == "yes"@) ==> allows_once(w),
        (w == "a"@ || w == "always"@) ==> allows_always(w),
        (allows_once(w) || allows_always(w)) ==> (w == "y"@ || w == "yes"@ || w == "a"@ || w
            == "always"@),
{
}

/// Once the operator answered `always`, every later request is allowed
/// without a prompt, whatever is answered in between.
pub proof fn law_always_is_permanent(before: ConsoleApprover, after: ConsoleApprover, line: Option<Seq<char>>)
    requires
        before.allows_all(),
        match line {
            None => after.allows_all() == before.allows_all(),
            Some(l) => after.allows_all() == (before.allows_all() || (!allows_once(answer_word(l))
                && allows_always(answer_word(l)))),
        },
    ensures
        after.allows_all(),
{
}

// ---------------------------------------------------------------------------
// Pending queue
// ---------------------------------------------------------------------------
/// Summary of a pending request, as listed for the extension.
#[derive(Debug)]
pub struct PendingSummary {
    pub id: u128,
    pub kind: String,
    pub summary: String,
    pub reason: Option<String>,
}

pub open spec fn opt_string_view(o: Option<String>) -> Option<Seq<char>> {
    match o {
        Some(s) => Some(s@),
        None => None,
    }
}

/// `s` summarizes the request `req` pending under `id`.
pub open spec fn summarizes(s: PendingSummary, id: u128, req: Request) -> bool {
    &&& s.id == id
    &&& s.kind@ == kind_name(req.kind)
    &&& s.summary@ == summary_text(req.action)
    &&& opt_string_view(s.reason) == opt_string_view(req.reason)
}

/// In-memory store of requests awaiting an approval decision from the
/// extension, keyed by request id.
#[derive(Debug)]
pub struct PendingStore {
    items: HashMap<u128, Request>,
}

impl PendingStore {
    /// The pending requests by id.
    pub closed spec fn pending(&self) -> Map<u128, Request> {
        self.items@
    }

    pub fn new() -> (r: PendingStore)
        ensures
            r.pending() == Map::<u128, Request>::empty(),
    {
        PendingStore { items: HashMap::new() }
    }

    /// Adds `req` under `id`, replacing any request pending under `id`.
    pub fn insert(&mut self, id: u128, req: Request)
        ensures
            final(self).pending() == old(self).pending().insert(id, req),
    {
        self.items.insert(id, req);
    }

    /// Summaries of every pending request, one per id, in no particular
    /// order.
    pub fn list(&self) -> (r: Vec<PendingSummary>)
        ensures
            r@.len() == self.pending().dom().len(),
            forall|i: int|
                0 <= i < r@.len() ==> self.pending().contains_key(#[trigger] r@[i].id)
                    && summarizes(r@[i], r@[i].id, self.pending()[r@[i].id]),
            forall|i: int, j: int| 0 <= i < j < r@.len() ==> r@[i].id != r@[j].id,
            forall|k: u128|
                #[trigger] self.pending().contains_key(k) ==> exists|i: int|
                    0 <= i < r@.len() && r@[i].id == k,
    {
        let mut out: Vec<PendingSummary> = Vec::new();
        let ghost full = vstd::std_specs::hash::spec_hash_map_iter(&self.items).remaining();
        for entry in it: self.items.iter()
            invariant
                it.seq() == full,
                out@.len() == it.index(),
                it.seq().len() == self.items@.dom().len(),
                it.seq().no_duplicates(),
                forall|i: int|
                    0 <= i < it.seq().len() ==> self.items@.contains_key(*it.seq()[i].0)
                        && self.items@[*it.seq()[i].0] == *it.seq()[i].1,
                forall|k: u128| #[trigger]
                    self.items@.contains_key(k) ==> it.seq().contains((&k, &self.items@[k])),
                forall|i: int|
                    0 <= i < out@.len() ==> (#[trigger] out@[i]).id == *it.seq()[i].0 && summarizes(
                        out@[i],
                        *it.seq()[i].0,
                        *it.seq()[i].1,
                    ),
        {
            let (id, req) = entry;
            let reason = match &req.reason {
                Some(s) => Some(s.clone()),
                None => None,
            };
            let s = PendingSummary {
                id: *id,
                kind: req.kind.as_str().to_owned(),
                summary: summarize(req),
                reason,
            };
            out.push(s);
        }
        proof {
            let seq = full;
            assert forall|i: int, j: int| 0 <= i < j < out@.len() implies out@[i].id
                != out@[j].id by {
                if out@[i].id == out@[j].id {
                    assert(seq[i] == seq[j]);
                }
            }
            assert forall|k: u128| #[trigger] self.pending().contains_key(k) implies exists|i: int|
                0 <= i < out@.len() && out@[i].id == k by {
                assert(seq.contains((&k, &self.items@[k])));
                let i = choose|i: int| 0 <= i < seq.len() && seq[i] == (&k, &self.items@[k]);
                assert(out@[i].id == k);
            }
        }
        out
    }

    /// Takes the request pending under `id` out of the store. True if there
    /// was one.
    pub fn decide(&mut self, id: u128) -> (r: bool)
        ensures
            r == old(self).pending().contains_key(id),
            final(self).pending() == old(self).pending().remove(id),
    {
        match self.items.remove(&id) {
            Some(_) => true,
            None => false,
        }
    }

    /// Drops everything pending.
    pub fn clear(&mut self)
        ensures
            final(self).pending() == Map::<u128, Request>::empty(),
    {
        self.items.clear();
    }
}

impl Default for PendingStore {
    fn default() -> (r: PendingStore)
        ensures
            r.pending() == Map::<u128, Request>::empty(),
    {
        PendingStore::new()
    }
}

/// A request that was added is pending until it is decided; deciding it
/// reports that it was pending and takes it out of the store.
pub proof fn law_insert_then_decide(store: Map<u128, Request>, id: u128, req: Request)
    ensures
        store.insert(id, req).contains_key(id),
        store.insert(id, req)[id] == req,
        !store.insert(id, req).remove(id).contains_key(id),
        store.insert(id, req).remove(id) == store.remove(id),
{
    assert(store.insert(id, req).remove(id) =~= store.remove(id));
}

} // verus!
