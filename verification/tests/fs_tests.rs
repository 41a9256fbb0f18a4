use anvaya::errors::FsError;
use anvaya::fs::{sort_entries, DirProbe, EntrySummary, FileSystem, ProjectMarkers, RawEntry};
use anvaya::protocol::{EntryKind, ListEntry};
use anvaya::tree::{build_tree, tree_at, WalkEntry};

fn no_markers() -> ProjectMarkers {
    ProjectMarkers {
        git: false,
        cargo_toml: false,
        package_json: false,
        pyproject_toml: false,
        requirements_txt: false,
        go_mod: false,
    }
}

fn walked(parts: &[&str], is_dir: bool) -> WalkEntry {
    WalkEntry { components: parts.iter().map(|s| s.to_string()).collect(), is_dir }
}

#[test]
fn test_grep() {
    let fs = FileSystem;
    let matches = fs.grep_lines("test.txt", "hello world\nthis is a test\nanother line\n", "test");
    assert_eq!(matches.len(), 1);
    assert_eq!(matches[0].line, 2);
    assert_eq!(matches[0].content, "this is a test");
    assert_eq!(matches[0].file, "test.txt");
}

#[test]
fn grep_handles_crlf_and_many_hits() {
    let fs = FileSystem;
    let matches = fs.grep_lines("a.txt", "ab\r\nxx\r\nab ab", "ab");
    assert_eq!(matches.len(), 2);
    assert_eq!(matches[0].line, 1);
    assert_eq!(matches[0].content, "ab");
    assert_eq!(matches[1].line, 3);
    assert_eq!(matches[1].content, "ab ab");
    assert!(fs.grep_lines("a.txt", "", "ab").is_empty());
}

#[test]
fn test_tree() {
    let root = build_tree(&vec![walked(&["test.txt"], false)]);
    assert_eq!(root.name, ".");
    assert!(root.is_dir);
    let children = root.children.unwrap();
    assert_eq!(children.len(), 1);
    assert_eq!(children[0].name, "test.txt");
    assert!(!children[0].is_dir);
    assert!(children[0].children.is_none());
}

#[test]
fn tree_fills_in_and_sorts() {
    let entries = vec![
        walked(&["src", "main.rs"], false),
        walked(&["b.txt"], false),
        walked(&["src"], true),
        walked(&["a"], true),
        walked(&["docs", "guide", "intro.md"], false),
    ];
    let root = build_tree(&entries);
    let kids = root.children.unwrap();
    let names: Vec<&str> = kids.iter().map(|k| k.name.as_str()).collect();
    assert_eq!(names, vec!["a", "b.txt", "docs", "src"]);
    assert!(kids[0].is_dir);
    assert!(kids[0].children.as_ref().unwrap().is_empty());
    assert!(kids[2].is_dir);
    let guide = &kids[2].children.as_ref().unwrap()[0];
    assert_eq!(guide.name, "guide");
    assert_eq!(guide.children.as_ref().unwrap()[0].name, "intro.md");
    let src = kids[3].children.as_ref().unwrap();
    assert_eq!(src.len(), 1);
    assert_eq!(src[0].name, "main.rs");
}

#[test]
fn tree_file_flag_wins_when_walked() {
    let entries = vec![walked(&["x", "y"], false), walked(&["x"], false)];
    let root = build_tree(&entries);
    let kids = root.children.unwrap();
    assert_eq!(kids.len(), 1);
    assert!(!kids[0].is_dir);
    assert!(kids[0].children.is_none());
}

#[test]
fn test_project_info() {
    let fs = FileSystem;
    let markers = ProjectMarkers { cargo_toml: true, ..no_markers() };
    let (is_git, language, build_system) = fs.project_info(markers);
    assert!(!is_git);
    assert_eq!(language.as_deref(), Some("Rust"));
    assert_eq!(build_system.as_deref(), Some("Cargo"));
}

#[test]
fn project_info_rules_in_order() {
    let fs = FileSystem;
    let both = ProjectMarkers { git: true, package_json: true, go_mod: true, ..no_markers() };
    let (g, l, b) = fs.project_info(both);
    assert!(g);
    assert_eq!(l.as_deref(), Some("JavaScript/TypeScript"));
    assert_eq!(b.as_deref(), Some("npm/yarn/pnpm"));
    let py = ProjectMarkers { requirements_txt: true, ..no_markers() };
    assert_eq!(fs.project_info(py).1.as_deref(), Some("Python"));
    let go = ProjectMarkers { go_mod: true, ..no_markers() };
    assert_eq!(fs.project_info(go).2.as_deref(), Some("go modules"));
    assert_eq!(fs.project_info(no_markers()), (false, None, None));
}

#[test]
fn test_read_partial() {
    let fs = FileSystem;
    let data = "hello world".as_bytes();
    let (start, len) = fs.read_window(data.len(), Some(6), Some(5));
    let (content, bytes) = fs.decode_read("test_read.txt", data[start..start + len].to_vec()).unwrap();
    assert_eq!(content, "world");
    assert_eq!(bytes, 5);
    let (start2, len2) = fs.read_window(data.len(), None, Some(5));
    let (content2, _) = fs.decode_read("test_read.txt", data[start2..start2 + len2].to_vec()).unwrap();
    assert_eq!(content2, "hello");
}

#[test]
fn read_window_clamps() {
    let fs = FileSystem;
    assert_eq!(fs.read_window(10, Some(20), Some(5)), (10, 0));
    assert_eq!(fs.read_window(10, Some(8), Some(5)), (8, 2));
    assert_eq!(fs.read_window(10, None, None), (0, 10));
    assert_eq!(fs.read_window(10, Some(3), None), (3, 7));
    assert_eq!(fs.read_window(10, Some(3), Some(usize::MAX)), (3, 7));
}

#[test]
fn binary_read_is_refused() {
    let fs = FileSystem;
    match fs.decode_read("bin.dat", vec![0xff, 0xfe, 0x00]) {
        Err(FsError::NotUtf8(p)) => assert_eq!(p, "bin.dat"),
        other => panic!("unexpected: {:?}", other),
    }
    let (s, n) = fs.decode_read("u.txt", "héllo".as_bytes().to_vec()).unwrap();
    assert_eq!(s, "héllo");
    assert_eq!(n, 6);
}

#[test]
fn test_edit_patch() {
    let fs = FileSystem;
    let before = "foo bar baz";
    let dry = fs
        .apply_edit("test_edit.txt", before, Some("bar"), Some("qux"), Some(false), Some(true), None, None, None, None, Some(true))
        .unwrap();
    assert_eq!(dry.matches, 1);
    assert!(!dry.write);
    let diff = dry.diff.unwrap();
    assert!(diff.contains("-foo bar baz"));
    assert!(diff.contains("+foo qux baz"));

    let real = fs
        .apply_edit("test_edit.txt", before, Some("bar"), Some("qux"), None, None, None, None, None, None, None)
        .unwrap();
    assert!(real.write);
    assert!(real.diff.is_none());
    assert_eq!(real.content, "foo qux baz");
    assert_eq!(real.bytes, 11);
    assert_eq!(dry.bytes, real.bytes);
    assert_eq!(dry.matches, real.matches);
    assert_eq!(dry.content, real.content);
}

#[test]
fn edit_replace_all_and_first() {
    let fs = FileSystem;
    let all = fs.apply_edit("f", "a-a-a", Some("a"), Some("bb"), None, None, None, None, None, None, None).unwrap();
    assert_eq!(all.content, "bb-bb-bb");
    assert_eq!(all.matches, 3);
    let first = fs.apply_edit("f", "a-a-a", Some("a"), Some("bb"), None, Some(false), None, None, None, None, None).unwrap();
    assert_eq!(first.content, "bb-a-a");
    assert_eq!(first.matches, 1);
}

#[test]
fn edit_regex() {
    let fs = FileSystem;
    let r = fs.apply_edit("f", "x1 y22 z333", Some("[0-9]+"), Some("#"), Some(true), None, None, None, None, None, None).unwrap();
    assert_eq!(r.content, "x# y# z#");
    assert_eq!(r.matches, 3);
    let r1 = fs.apply_edit("f", "x1 y22", Some("[0-9]+"), Some("#"), Some(true), Some(false), None, None, None, None, None).unwrap();
    assert_eq!(r1.content, "x# y22");
    assert_eq!(r1.matches, 1);
    assert!(matches!(
        fs.apply_edit("f", "abc", Some("("), Some("x"), Some(true), None, None, None, None, None, None),
        Err(FsError::Io(_))
    ));
}

#[test]
fn edit_insert_append_prepend() {
    let fs = FileSystem;
    let before = fs.apply_edit("f", "one two", None, Some("1 "), None, None, Some("two"), None, None, None, None).unwrap();
    assert_eq!(before.content, "one 1 two");
    let after = fs.apply_edit("f", "one two", None, Some(" 2"), None, None, None, Some("one"), None, None, None).unwrap();
    assert_eq!(after.content, "one 2 two");
    let app = fs.apply_edit("f", "x", None, Some("y"), None, None, None, None, Some(true), None, None).unwrap();
    assert_eq!(app.content, "xy");
    let pre = fs.apply_edit("f", "x", None, Some("y"), None, None, None, None, None, Some(true), None).unwrap();
    assert_eq!(pre.content, "yx");
    let empty_append = fs.apply_edit("f", "x", None, None, None, None, None, None, Some(true), None, None).unwrap();
    assert_eq!(empty_append.content, "x");
    assert_eq!(empty_append.matches, 0);
}

#[test]
fn edit_without_match_is_not_found() {
    let fs = FileSystem;
    match fs.apply_edit("f.txt", "abc", Some("zzz"), Some("y"), None, None, None, None, None, None, None) {
        Err(FsError::NotFound(p)) => assert_eq!(p, "f.txt"),
        other => panic!("unexpected: {:?}", other.map(|o| o.content)),
    }
}

#[test]
fn listing_is_sorted_by_name() {
    let entries = vec![
        EntrySummary::classify(false, false, 3).into_entry("b.txt".into()),
        EntrySummary::classify(false, true, 99).into_entry("a".into()),
        EntrySummary::classify(true, true, 5).into_entry("C".into()),
    ];
    let sorted = sort_entries(entries);
    let names: Vec<&str> = sorted.iter().map(|e| e.name.as_str()).collect();
    assert_eq!(names, vec!["C", "a", "b.txt"]);
    assert_eq!(sorted[0].kind, EntryKind::Symlink);
    assert_eq!(sorted[0].bytes, 0);
    assert_eq!(sorted[1].kind, EntryKind::Dir);
    assert_eq!(sorted[1].bytes, 0);
    assert_eq!(sorted[2].kind, EntryKind::File);
    assert_eq!(sorted[2].bytes, 3);
    let empty: Vec<ListEntry> = sort_entries(vec![]);
    assert!(empty.is_empty());
}

#[test]
fn same_path_is_refused() {
    let fs = FileSystem;
    assert!(matches!(
        fs.check_distinct(Some("/a".into()), Some("/a".into())),
        Err(FsError::SamePath)
    ));
    assert!(fs.check_distinct(None, None).is_err());
    assert!(fs.check_distinct(Some("/a".into()), Some("/b".into())).is_ok());
    assert!(fs.check_distinct(Some("/a".into()), None).is_ok());
    assert!(fs.needs_copy_fallback(Some(18)));
    assert!(!fs.needs_copy_fallback(Some(2)));
    assert!(!fs.needs_copy_fallback(None));
}

#[test]
fn edit_outcome_reports() {
    let fs = FileSystem;
    match fs.edit_outcome("f.txt", "x".into(), 0, None, Some(false), Some(true), Some("d".into())) {
        Err(FsError::NotFound(p)) => assert_eq!(p, "f.txt"),
        other => panic!("unexpected: {:?}", other.map(|o| o.content)),
    }
    let dry = fs.edit_outcome("f.txt", "héé".into(), 2, None, None, Some(true), Some("diff".into())).unwrap();
    assert_eq!(dry.bytes, 5);
    assert_eq!(dry.matches, 2);
    assert_eq!(dry.diff.as_deref(), Some("diff"));
    assert!(!dry.write);
    let real = fs.edit_outcome("f.txt", "abc".into(), 0, Some(true), None, None, Some("ignored".into())).unwrap();
    assert!(real.write);
    assert!(real.diff.is_none());
    assert_eq!(real.content, "abc");
}

fn raw(name: &str, is_symlink: bool, is_dir: bool, len: u64) -> RawEntry {
    RawEntry { name: name.to_string(), is_symlink, is_dir, len }
}

#[test]
fn whole_listing() {
    let fs = FileSystem;
    let v = fs
        .listing(
            "/w",
            DirProbe::Dir,
            vec![raw("zeta", false, false, 7), raw("link", true, false, 99), raw("Docs", false, true, 4096)],
        )
        .unwrap();
    let names: Vec<&str> = v.iter().map(|e| e.name.as_str()).collect();
    assert_eq!(names, vec!["Docs", "link", "zeta"]);
    assert_eq!((v[0].kind, v[0].bytes), (EntryKind::Dir, 0));
    assert_eq!((v[1].kind, v[1].bytes), (EntryKind::Symlink, 0));
    assert_eq!((v[2].kind, v[2].bytes), (EntryKind::File, 7));
    match fs.listing("/w/gone", DirProbe::Missing, vec![]) {
        Err(FsError::NotFound(p)) => assert_eq!(p, "/w/gone"),
        other => panic!("unexpected: {:?}", other),
    }
    match fs.listing("/w/f.txt", DirProbe::NotDir, vec![]) {
        Err(FsError::NotDir(p)) => assert_eq!(p, "/w/f.txt"),
        other => panic!("unexpected: {:?}", other),
    }
}

#[test]
fn whole_search_in_walk_order() {
    let fs = FileSystem;
    let hits = fs.search_files(
        vec![
            ("b.txt".to_string(), Some("no\nneedle here\n".to_string())),
            ("bin.dat".to_string(), None),
            ("a.txt".to_string(), Some("needle\nneedle again".to_string())),
        ],
        "needle",
    );
    let got: Vec<(String, usize, String)> =
        hits.into_iter().map(|m| (m.file, m.line, m.content)).collect();
    assert_eq!(
        got,
        vec![
            ("b.txt".to_string(), 2, "needle here".to_string()),
            ("a.txt".to_string(), 1, "needle".to_string()),
            ("a.txt".to_string(), 2, "needle again".to_string()),
        ]
    );
}

#[test]
fn tree_of_a_non_directory_is_refused() {
    match tree_at("/w/f.txt", false, &vec![]) {
        Err(FsError::NotDir(p)) => assert_eq!(p, "/w/f.txt"),
        other => panic!("unexpected: {:?}", other.map(|t| t.name)),
    }
    let t = tree_at("/w", true, &vec![walked(&["a"], false)]).unwrap();
    assert_eq!(t.children.unwrap()[0].name, "a");
}
