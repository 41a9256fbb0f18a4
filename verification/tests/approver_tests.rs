use anvaya::approver::{
    decision_or_deny, summarize, Approval, AutoApprover, ConsoleApprover, ConsoleStep, PendingStore,
};
use anvaya::protocol::{Action, ActionKind, Request, WriteLocation};
use anvaya::text::{split_trimmed, truncate};

#[test]
fn auto_approver_allows() {
    let req = Request::delete("/w/x".into());
    assert_eq!(AutoApprover.approve(&req), Approval::Allow);
}

#[test]
fn summaries() {
    let w = Request::write("/w/a.txt".into(), "héllo".into(), WriteLocation::Append);
    assert_eq!(summarize(&w), "write (append, 6 bytes) -> /w/a.txt");
    let o = Request::write("/w/a.txt".into(), "".into(), WriteLocation::Overwrite);
    assert_eq!(summarize(&o), "write (overwrite, 0 bytes) -> /w/a.txt");
    assert_eq!(summarize(&Request::mv("a".into(), "b".into())), "move a -> b");
    assert_eq!(summarize(&Request::cp("a".into(), "b".into())), "copy a -> b");
    assert_eq!(summarize(&Request::delete("a".into())), "delete ! a");
    assert_eq!(summarize(&Request::read("a".into())), "read <- a");
    let long = "x".repeat(50);
    let edit = Request::new(
        ActionKind::Edit,
        Action::Edit {
            path: "p".into(),
            search: Some(long.clone()),
            replace: None,
            regex: None,
            replace_all: None,
            insert_before: None,
            insert_after: None,
            append: None,
            prepend: None,
            dry_run_diff: None,
        },
    );
    assert_eq!(summarize(&edit), format!("edit p ({}… -> )", "x".repeat(40)));
    let grep = Request::new(ActionKind::Grep, Action::Grep { path: "d".into(), query: "needle".into() });
    assert_eq!(summarize(&grep), "grep needle -> d");
    let batch = Request::new(
        ActionKind::Batch,
        Action::Batch { actions: vec![Action::Mkdir { path: "a".into() }, Action::Tree { path: "b".into() }] },
    );
    assert_eq!(summarize(&batch), "batch (2 actions)");
    let glob = Request::new(ActionKind::GlobList, Action::GlobList { pattern: "*.rs".into() });
    assert_eq!(summarize(&glob), "glob_list <- *.rs");
}

#[test]
fn console_prompt_and_answers() {
    let mut c = ConsoleApprover::new();
    let req = Request::mkdir("/w/new".into());
    match c.begin(&req) {
        ConsoleStep::Ask(p) => assert_eq!(
            p,
            "\n[anvaya] approval requested:\n  mkdir -> /w/new\nAllow? [y/N/a=always]: "
        ),
        other => panic!("unexpected: {:?}", other),
    }
    assert_eq!(c.answer(Some("  Y \n")), Approval::Allow);
    assert!(matches!(c.begin(&req), ConsoleStep::Ask(_)));
    assert_eq!(c.answer(Some("no")), Approval::Deny);
    assert_eq!(c.answer(Some("")), Approval::Deny);
    assert_eq!(c.answer(None), Approval::Deny);
    assert_eq!(c.answer(Some("ALWAYS\n")), Approval::Allow);
    assert!(matches!(c.begin(&req), ConsoleStep::Decided(Approval::Allow)));
    assert_eq!(c.answer(Some("n")), Approval::Deny);
    assert!(matches!(c.begin(&req), ConsoleStep::Decided(Approval::Allow)));
}

#[test]
fn console_default_asks() {
    let c = ConsoleApprover::default();
    assert!(matches!(c.begin(&Request::list("a".into())), ConsoleStep::Ask(_)));
}

#[test]
fn missing_decision_denies() {
    assert_eq!(decision_or_deny(Some(Approval::Allow)), Approval::Allow);
    assert_eq!(decision_or_deny(Some(Approval::Deny)), Approval::Deny);
    assert_eq!(decision_or_deny(None), Approval::Deny);
}

#[test]
fn pending_store_lifecycle() {
    let mut store = PendingStore::new();
    assert!(store.list().is_empty());
    store.insert(1, Request::mkdir("/w/a".into()).with_reason("setup".into()));
    store.insert(2, Request::delete("/w/b".into()));
    let mut items = store.list();
    items.sort_by_key(|s| s.id);
    assert_eq!(items.len(), 2);
    assert_eq!(items[0].id, 1);
    assert_eq!(items[0].kind, "mkdir");
    assert_eq!(items[0].summary, "mkdir -> /w/a");
    assert_eq!(items[0].reason.as_deref(), Some("setup"));
    assert_eq!(items[1].kind, "delete");
    assert!(items[1].reason.is_none());
    assert!(store.decide(1));
    assert!(!store.decide(1));
    assert_eq!(store.list().len(), 1);
    store.insert(2, Request::list("/w".into()));
    assert_eq!(store.list().len(), 1);
    assert_eq!(store.list()[0].kind, "list");
    store.clear();
    assert!(store.list().is_empty());
    assert!(!store.decide(2));
    let d = PendingStore::default();
    assert!(d.list().is_empty());
}

#[test]
fn text_helpers() {
    assert_eq!(truncate("abcdef", 3), "abc…");
    assert_eq!(truncate("abc", 3), "abc");
    assert_eq!(truncate("", 0), "");
    assert_eq!(
        split_trimmed(" a ;; b;  ;c ", ';'),
        vec!["a".to_string(), "b".to_string(), "c".to_string()]
    );
    assert!(split_trimmed("", ';').is_empty());
}
