//! The decisions inside each filesystem action: which part of a file a read
//! returns and whether its bytes are text, how a directory listing is
//! ordered, what an edit does to a file's text, which lines a search
//! reports, what kind of project a directory holds, and when a move or copy
//! is refused. Touching the disk is the caller's work.

use vstd::prelude::*;
use vstd::utf8::{decode_utf8, valid_utf8};

use crate::approver::byte_count;
use crate::errors::{fs_error_message, other_io_error, FsError};
use crate::protocol::{EntryKind, GrepMatch, ListEntry};
use crate::search::{
    count_matches, count_occurrences, find_first, find_first_index, find_from, insert_at,
    occurs_at, push_replace_all, replace_all, replace_first,
};
use crate::text::{append_chars, string_from, to_chars};
use vstd::string::StringExecFns;

verus! {

/// A handle to the (stateless) filesystem logic.
#[derive(Debug, Clone, Copy)]
pub struct FileSystem;

// ---------------------------------------------------------------------------
// Reading
// ---------------------------------------------------------------------------
pub open spec fn min_nat(a: int, b: int) -> int {
    if a <= b {
        a
    } else {
        b
    }
}

/// The bytes `[start, end)` of a file of `size` bytes that a read returns.
pub open spec fn window_start(size: int, offset: Option<usize>) -> int {
    min_nat(
        match offset {
            Some(o) => o as int,
            None => 0,
        },
        size,
    )
}

pub open spec fn window_end(size: int, offset: Option<usize>, length: Option<usize>) -> int {
    match length {
        Some(l) => min_nat(window_start(size, offset) + l, size),
        None => size,
    }
}

/// A read's window always lies inside the file, and an offset at or past
/// the end reads nothing.
pub proof fn law_read_window_inside_file(size: nat, offset: Option<usize>, length: Option<usize>)
    ensures
        0 <= window_start(size as int, offset) <= window_end(size as int, offset, length) <= size,
        (offset matches Some(o) && o >= size) ==> window_end(size as int, offset, length)
            == window_start(size as int, offset),
        length is None ==> window_end(size as int, offset, length) == size,
{
}

/// Decodes bytes as UTF-8 (`String::from_utf8`): the text when the bytes
/// are valid UTF-8.
#[verifier::external_body]
fn utf8_text(bytes: Vec<u8>) -> (r: Option<String>)
    ensures
        r is Some <==> valid_utf8(bytes@),
        r matches Some(s) ==> s@ == decode_utf8(bytes@),
{
    match String::from_utf8(bytes) {
        Ok(s) => Some(s),
        Err(_) => None,
    }
}

impl FileSystem {
    /// Where a read of a file of `size` bytes starts, and how many bytes it
    /// takes: from `offset` (default 0), `length` bytes (default: to the
    /// end), both clamped to the file.
    pub fn read_window(&self, size: usize, offset: Option<usize>, length: Option<usize>) -> (r: (
        usize,
        usize,
    ))
        ensures
            r.0 == window_start(size as int, offset),
            r.0 + r.1 == window_end(size as int, offset, length),
            r.0 + r.1 <= size,
    {
        let want = match offset {
            Some(o) => o,
            None => 0,
        };
        let start = if want < size {
            want
        } else {
            size
        };
        let end = match length {
            Some(len) => if len < size - start {
                start + len
            } else {
                size
            },
            None => size,
        };
        (start, end - start)
    }

    /// The text of the bytes a read returned, with their count. Binary
    /// (non UTF-8) content is refused.
    pub fn decode_read(&self, path: &str, bytes: Vec<u8>) -> (r: Result<(String, usize), FsError>)
        ensures
            match r {
                Ok((s, n)) => valid_utf8(bytes@) && s@ == decode_utf8(bytes@) && n == bytes@.len(),
                Err(e) => !valid_utf8(bytes@) && (e matches FsError::NotUtf8(p) && p@ == path@),
            },
    {
        let n = bytes.len();
        match utf8_text(bytes) {
            Some(s) => Ok((s, n)),
            None => Err(FsError::NotUtf8(path.to_owned())),
        }
    }
}

// ---------------------------------------------------------------------------
// Listing
// ---------------------------------------------------------------------------
/// What a directory entry is, as a listing reports it.
#[derive(Debug, Clone, Copy)]
pub enum EntrySummary {
    File(u64),
    Dir,
    Symlink,
}

impl EntrySummary {
    /// The summary of an entry: a symlink (never followed) before a
    /// directory before a file of `len` bytes.
    pub fn classify(is_symlink: bool, is_dir: bool, len: u64) -> (r: EntrySummary)
        ensures
            r == (if is_symlink {
                EntrySummary::Symlink
            } else if is_dir {
                EntrySummary::Dir
            } else {
                EntrySummary::File(len)
            }),
    {
        if is_symlink {
            EntrySummary::Symlink
        } else if is_dir {
            EntrySummary::Dir
        } else {
            EntrySummary::File(len)
        }
    }

    /// The listing entry named `name`; directories and symlinks count 0
    /// bytes.
    pub fn into_entry(self, name: String) -> (r: ListEntry)
        ensures
            r.name == name,
            r.kind == match self {
                EntrySummary::File(_) => EntryKind::File,
                EntrySummary::Dir => EntryKind::Dir,
                EntrySummary::Symlink => EntryKind::Symlink,
            },
            r.bytes == match self {
                EntrySummary::File(b) => b,
                _ => 0,
            },
    {
        match self {
            EntrySummary::File(bytes) => ListEntry { name, kind: EntryKind::File, bytes },
            EntrySummary::Dir => ListEntry { name, kind: EntryKind::Dir, bytes: 0 },
            EntrySummary::Symlink => ListEntry { name, kind: EntryKind::Symlink, bytes: 0 },
        }
    }
}

/// Lexicographic order of texts by code point (the order of their UTF-8
/// bytes).
pub open spec fn text_lt(a: Seq<char>, b: Seq<char>) -> bool
    decreases a.len(),
{
    if a.len() == 0 {
        b.len() > 0
    } else if b.len() == 0 {
        false
    } else if a[0] != b[0] {
        (a[0] as u32) < (b[0] as u32)
    } else {
        text_lt(a.drop_first(), b.drop_first())
    }
}

pub proof fn lemma_text_lt_asym(a: Seq<char>, b: Seq<char>)
    ensures
        !(text_lt(a, b) && text_lt(b, a)),
    decreases a.len(),
{
    if a.len() > 0 && b.len() > 0 && a[0] == b[0] {
        lemma_text_lt_asym(a.drop_first(), b.drop_first());
    }
}

pub proof fn lemma_text_lt_trans(a: Seq<char>, b: Seq<char>, c: Seq<char>)
    requires
        text_lt(a, b),
        text_lt(b, c),
    ensures
        text_lt(a, c),
    decreases a.len(),
{
    if a.len() > 0 && b.len() > 0 && c.len() > 0 && a[0] == b[0] && b[0] == c[0] {
        lemma_text_lt_trans(a.drop_first(), b.drop_first(), c.drop_first());
    }
}

/// Names sort as `str` does: a proper prefix comes first, and otherwise
/// the first differing character decides, by its code point.
pub proof fn law_names_sort_lexicographically(a: Seq<char>, b: Seq<char>, k: int)
    requires
        0 <= k <= a.len(),
        k <= b.len(),
        a.take(k) == b.take(k),
    ensures
        k == a.len() && k < b.len() ==> text_lt(a, b),
        k == b.len() ==> !text_lt(a, b),
        k < a.len() && k < b.len() && (a[k] as u32) < (b[k] as u32) ==> text_lt(a, b),
    decreases k,
{
    if k > 0 {
        assert(a[0] == a.take(k)[0]);
        assert(b[0] == b.take(k)[0]);
        assert(a.drop_first().take(k - 1) =~= a.take(k).drop_first());
        assert(b.drop_first().take(k - 1) =~= b.take(k).drop_first());
        law_names_sort_lexicographically(a.drop_first(), b.drop_first(), k - 1);
    }
}

/// `a` sorts strictly before `b`.
pub fn text_less(a: &Vec<char>, b: &Vec<char>) -> (r: bool)
    ensures
        r == text_lt(a@, b@),
{
    let mut i: usize = 0;
    assert(a@.skip(0) =~= a@);
    assert(b@.skip(0) =~= b@);
    while i < a.len() && i < b.len() && a[i] == b[i]
        invariant
            i <= a@.len(),
            i <= b@.len(),
            text_lt(a@, b@) == text_lt(a@.skip(i as int), b@.skip(i as int)),
        decreases a.len() - i,
    {
        assert(a@.skip(i as int).drop_first() =~= a@.skip((i + 1) as int));
        assert(b@.skip(i as int).drop_first() =~= b@.skip((i + 1) as int));
        i = i + 1;
    }
    if i == a.len() {
        i < b.len()
    } else if i == b.len() {
        false
    } else {
        assert(a@.skip(i as int)[0] == a@[i as int]);
        assert(b@.skip(i as int)[0] == b@[i as int]);
        (a[i] as u32) < (b[i] as u32)
    }
}

/// Entries in order of their names.
pub open spec fn sorted_by_name(v: Seq<ListEntry>) -> bool {
    forall|i: int, j: int| 0 <= i < j < v.len() ==> !text_lt(v[j].name@, v[i].name@)
}

/// The entries of a directory listing, sorted by name.
pub fn sort_entries(entries: Vec<ListEntry>) -> (r: Vec<ListEntry>)
    ensures
        r@.to_multiset() == entries@.to_multiset(),
        sorted_by_name(r@),
{
    broadcast use vstd::seq_lib::group_to_multiset_ensures;

    let mut rest = entries;
    let mut out: Vec<ListEntry> = Vec::new();
    while rest.len() > 0
        invariant
            out@.to_multiset().add(rest@.to_multiset()) == entries@.to_multiset(),
            sorted_by_name(out@),
            forall|i: int, j: int|
                0 <= i < out@.len() && 0 <= j < rest@.len() ==> !text_lt(
                    rest@[j].name@,
                    out@[i].name@,
                ),
        decreases rest.len(),
    {
        let mut best: usize = 0;
        let mut best_name = to_chars(rest[0].name.as_str());
        let mut k: usize = 1;
        proof {
            lemma_text_lt_asym(rest@[0].name@, rest@[0].name@);
        }
        while k < rest.len()
            invariant
                0 < rest@.len(),
                best < k <= rest@.len(),
                best_name@ == rest@[best as int].name@,
                forall|j: int| 0 <= j < k ==> !text_lt(rest@[j].name@, rest@[best as int].name@),
            decreases rest.len() - k,
        {
            let cand = to_chars(rest[k].name.as_str());
            if text_less(&cand, &best_name) {
                proof {
                    assert forall|j: int| 0 <= j <= k implies !text_lt(
                        rest@[j].name@,
                        rest@[k as int].name@,
                    ) by {
                        if j < k && text_lt(rest@[j].name@, rest@[k as int].name@) {
                            lemma_text_lt_trans(
                                rest@[j].name@,
                                rest@[k as int].name@,
                                rest@[best as int].name@,
                            );
                        }
                        if j == k {
                            lemma_text_lt_asym(rest@[j].name@, rest@[j].name@);
                        }
                    }
                }
                best = k;
                best_name = cand;
            }
            k = k + 1;
        }
        let ghost old_rest = rest@;
        let ghost old_out = out@;
        let e = rest.remove(best);
        proof {
            old_rest.to_multiset_ensures();
            old_out.to_multiset_ensures();
            assert(old_rest.remove(best as int).to_multiset() =~= old_rest.to_multiset().remove(
                old_rest[best as int],
            ));
        }
        out.push(e);
        proof {
            assert(out@ == old_out.push(e));
            assert forall|i: int, j: int| 0 <= i < j < out@.len() implies !text_lt(
                out@[j].name@,
                out@[i].name@,
            ) by {
                if j == out@.len() - 1 {
                    assert(!text_lt(old_rest[best as int].name@, old_out[i].name@));
                }
            }
            assert forall|i: int, j: int|
                0 <= i < out@.len() && 0 <= j < rest@.len() implies !text_lt(
                rest@[j].name@,
                out@[i].name@,
            ) by {
                let oj = if j < best {
                    j
                } else {
                    j + 1
                };
                assert(rest@[j] == old_rest[oj]);
                if i < old_out.len() {
                    assert(!text_lt(old_rest[oj].name@, old_out[i].name@));
                }
            }
            assert(old_rest.to_multiset().count(e) > 0) by {
                assert(old_rest[best as int] == e);
                assert(old_rest.contains(e));
            }
            assert(out@.to_multiset().add(rest@.to_multiset()) =~= old_out.to_multiset().add(
                old_rest.to_multiset(),
            ));
        }
    }
    out
}

// ---------------------------------------------------------------------------
// Move and copy
// ---------------------------------------------------------------------------
pub open spec fn opt_text_view(o: Option<String>) -> Option<Seq<char>> {
    match o {
        Some(s) => Some(s@),
        None => None,
    }
}

impl FileSystem {
    /// Refuses a move or copy whose source and destination are the same
    /// file: their canonical forms (`None` when a path cannot be
    /// canonicalized) are compared.
    pub fn check_distinct(&self, src_canonical: Option<String>, dst_canonical: Option<String>) -> (r: Result<(), FsError>)
        ensures
            r is Err <==> opt_text_view(src_canonical) == opt_text_view(dst_canonical),
            r matches Err(e) ==> e is SamePath,
    {
        let same = match (&src_canonical, &dst_canonical) {
            (Some(a), Some(b)) => a.eq(b),
            (None, None) => true,
            _ => false,
        };
        if same {
            Err(FsError::SamePath)
        } else {
            Ok(())
        }
    }

    /// A rename that failed with this OS error code falls back to copy and
    /// delete: only a cross-device link (`EXDEV`, 18).
    pub fn needs_copy_fallback(&self, raw_os_error: Option<i32>) -> (r: bool)
        ensures
            r == (raw_os_error == Some(18i32)),
    {
        match raw_os_error {
            Some(code) => code == 18,
            None => false,
        }
    }
}

// ---------------------------------------------------------------------------
// Project detection
// ---------------------------------------------------------------------------
/// Marker files whose presence identifies a project.
pub const GIT_DIR: &'static str = ".git";
pub const CARGO_MANIFEST: &'static str = "Cargo.toml";
pub const NODE_MANIFEST: &'static str = "package.json";
pub const PYPROJECT_MANIFEST: &'static str = "pyproject.toml";
pub const PIP_REQUIREMENTS: &'static str = "requirements.txt";
pub const GO_MODULE: &'static str = "go.mod";

/// Which marker files a directory holds.
#[derive(Debug, Clone, Copy)]
pub struct ProjectMarkers {
    pub git: bool,
    pub cargo_toml: bool,
    pub package_json: bool,
    pub pyproject_toml: bool,
    pub requirements_txt: bool,
    pub go_mod: bool,
}

/// The language and build system a directory's markers stand for, the
/// first rule that applies winning.
pub open spec fn project_kind(m: ProjectMarkers) -> Option<(Seq<char>, Seq<char>)> {
    if m.cargo_toml {
        Some(("Rust"@, "Cargo"@))
    } else if m.package_json {
        Some(("JavaScript/TypeScript"@, "npm/yarn/pnpm"@))
    } else if m.pyproject_toml || m.requirements_txt {
        Some(("Python"@, "pip/poetry/uv"@))
    } else if m.go_mod {
        Some(("Go"@, "go modules"@))
    } else {
        None
    }
}

/// Project detection, rule by rule: a `Cargo.toml` means Rust and Cargo;
/// else a `package.json` means JavaScript/TypeScript and npm/yarn/pnpm;
/// else a `pyproject.toml` or a `requirements.txt`, either alone, means
/// Python and pip/poetry/uv; else a `go.mod` means Go and go modules; and a
/// directory with none of these markers has no project kind. Whether it is
/// a git checkout plays no part.
pub proof fn law_project_rules(m: ProjectMarkers)
    ensures
        m.cargo_toml ==> project_kind(m) == Some(("Rust"@, "Cargo"@)),
        !m.cargo_toml && m.package_json ==> project_kind(m) == Some(
            ("JavaScript/TypeScript"@, "npm/yarn/pnpm"@),
        ),
        !m.cargo_toml && !m.package_json && m.pyproject_toml ==> project_kind(m) == Some(
            ("Python"@, "pip/poetry/uv"@),
        ),
        !m.cargo_toml && !m.package_json && m.requirements_txt ==> project_kind(m) == Some(
            ("Python"@, "pip/poetry/uv"@),
        ),
        !m.cargo_toml && !m.package_json && !m.pyproject_toml && !m.requirements_txt && m.go_mod
            ==> project_kind(m) == Some(("Go"@, "go modules"@)),
        !m.cargo_toml && !m.package_json && !m.pyproject_toml && !m.requirements_txt
            && !m.go_mod ==> project_kind(m) is None,
        project_kind(m) == project_kind(ProjectMarkers { git: !m.git, ..m }),
{
}

impl FileSystem {
    /// Whether the directory is a git checkout, and its language and build
    /// system.
    pub fn project_info(&self, m: ProjectMarkers) -> (r: (bool, Option<String>, Option<String>))
        ensures
            r.0 == m.git,
            match project_kind(m) {
                Some((lang, build)) => (r.1 matches Some(l) && l@ == lang) && (r.2 matches Some(b)
                    && b@ == build),
                None => r.1 is None && r.2 is None,
            },
    {
        if m.cargo_toml {
            (m.git, Some("Rust".to_owned()), Some("Cargo".to_owned()))
        } else if m.package_json {
            (m.git, Some("JavaScript/TypeScript".to_owned()), Some("npm/yarn/pnpm".to_owned()))
        } else if m.pyproject_toml || m.requirements_txt {
            (m.git, Some("Python".to_owned()), Some("pip/poetry/uv".to_owned()))
        } else if m.go_mod {
            (m.git, Some("Go".to_owned()), Some("go modules".to_owned()))
        } else {
            (m.git, None, None)
        }
    }
}

// ---------------------------------------------------------------------------
// Editing
// ---------------------------------------------------------------------------
/// What compiling `pattern` as a regular expression reports
/// (`regex::Regex::new`): `None` when it compiles, else the error's text.
pub uninterp spec fn regex_compile_error(pattern: Seq<char>) -> Option<Seq<char>>;

/// The number of matches of `pattern` in `text`
/// (`regex::Regex::find_iter(..).count()`).
pub uninterp spec fn regex_match_count(pattern: Seq<char>, text: Seq<char>) -> nat;

/// `text` with every match of `pattern` replaced by `rep`, with `$`
/// group references expanded (`regex::Regex::replace_all`).
pub uninterp spec fn regex_replace_all_text(pattern: Seq<char>, text: Seq<char>, rep: Seq<char>) -> Seq<char>;

/// `text` with the first match of `pattern` replaced by `rep`
/// (`regex::Regex::replace`).
pub uninterp spec fn regex_replace_first_text(pattern: Seq<char>, text: Seq<char>, rep: Seq<char>) -> Seq<char>;

/// The unified line diff from `old` to `new` under the two header labels
/// (`similar::TextDiff::from_lines(..).unified_diff().header(..)`).
pub uninterp spec fn unified_diff_text(old: Seq<char>, new: Seq<char>, old_label: Seq<char>, new_label: Seq<char>) -> Seq<char>;

/// Compiles `pattern` (`regex::Regex::new`) and reports the error's text
/// when it does not compile.
#[verifier::external_body]
fn regex_error(pattern: &str) -> (r: Option<String>)
    ensures
        opt_text_view(r) == regex_compile_error(pattern@),
{
    match regex::Regex::new(pattern) {
        Ok(_) => None,
        Err(e) => Some(e.to_string()),
    }
}

/// Counts the matches of a pattern that compiles
/// (`regex::Regex::find_iter(..).count()`).
#[verifier::external_body]
fn regex_count(pattern: &str, text: &str) -> (r: usize)
    requires
        regex_compile_error(pattern@) is None,
    ensures
        r == regex_match_count(pattern@, text@),
{
    match regex::Regex::new(pattern) {
        Ok(re) => re.find_iter(text).count(),
        Err(_) => 0,
    }
}

/// Replaces every match of a pattern that compiles
/// (`regex::Regex::replace_all`).
#[verifier::external_body]
fn regex_replace_all(pattern: &str, text: &str, rep: &str) -> (r: String)
    requires
        regex_compile_error(pattern@) is None,
    ensures
        r@ == regex_replace_all_text(pattern@, text@, rep@),
{
    match regex::Regex::new(pattern) {
        Ok(re) => re.replace_all(text, rep).into_owned(),
        Err(_) => String::new(),
    }
}

/// Replaces the first match of a pattern that compiles
/// (`regex::Regex::replace`).
#[verifier::external_body]
fn regex_replace_first(pattern: &str, text: &str, rep: &str) -> (r: String)
    requires
        regex_compile_error(pattern@) is None,
    ensures
        r@ == regex_replace_first_text(pattern@, text@, rep@),
{
    match regex::Regex::new(pattern) {
        Ok(re) => re.replace(text, rep).into_owned(),
        Err(_) => String::new(),
    }
}

/// The unified line diff from `old` to `new`
/// (`similar::TextDiff::from_lines(..).unified_diff().header(..)`).
#[verifier::external_body]
fn unified_diff(old: &str, new: &str, old_label: &str, new_label: &str) -> (r: String)
    ensures
        r@ == unified_diff_text(old@, new@, old_label@, new_label@),
{
    similar::TextDiff::from_lines(old, new).unified_diff().header(old_label, new_label).to_string()
}

pub open spec fn flag(o: Option<bool>, default: bool) -> bool {
    match o {
        Some(b) => b,
        None => default,
    }
}

pub open spec fn opt_str_view(o: Option<&str>) -> Option<Seq<char>> {
    match o {
        Some(s) => Some(s@),
        None => None,
    }
}

/// What an edit makes of a text: the new text and the number of matches,
/// or the error of a pattern that does not compile.
pub enum EditResult {
    Text(Seq<char>, nat),
    BadPattern(Seq<char>),
}

/// The edit of text `c`: append or prepend `replace`; or replace
/// occurrences of `search` (plain or regular expression, all by default or
/// only the first); or insert `replace` before or after the first
/// occurrence of a marker. The first option that applies wins.
pub open spec fn edit_result(
    c: Seq<char>,
    search: Option<Seq<char>>,
    replace: Option<Seq<char>>,
    regex: Option<bool>,
    replace_all_opt: Option<bool>,
    before: Option<Seq<char>>,
    after: Option<Seq<char>>,
    append: Option<bool>,
    prepend: Option<bool>,
) -> EditResult {
    if flag(append, false) {
        match replace {
            Some(r) => EditResult::Text(c + r, 1),
            None => EditResult::Text(c, 0),
        }
    } else if flag(prepend, false) {
        match replace {
            Some(r) => EditResult::Text(r + c, 1),
            None => EditResult::Text(c, 0),
        }
    } else if search is Some && replace is Some {
        let s = search->0;
        let r = replace->0;
        if flag(regex, false) {
            match regex_compile_error(s) {
                Some(m) => EditResult::BadPattern(m),
                None => {
                    let n = regex_match_count(s, c);
                    if n > 0 {
                        if flag(replace_all_opt, true) {
                            EditResult::Text(regex_replace_all_text(s, c, r), n)
                        } else {
                            EditResult::Text(regex_replace_first_text(s, c, r), 1)
                        }
                    } else {
                        EditResult::Text(c, 0)
                    }
                },
            }
        } else {
            let n = count_matches(c, s);
            if n > 0 {
                if flag(replace_all_opt, true) {
                    EditResult::Text(replace_all(c, s, r), n)
                } else {
                    EditResult::Text(replace_first(c, s, r), 1)
                }
            } else {
                EditResult::Text(c, 0)
            }
        }
    } else if before is Some && replace is Some {
        match find_first(c, before->0) {
            Some(p) => EditResult::Text(insert_at(c, p, replace->0), 1),
            None => EditResult::Text(c, 0),
        }
    } else if after is Some && replace is Some {
        match find_first(c, after->0) {
            Some(p) => EditResult::Text(insert_at(c, p + after->0.len(), replace->0), 1),
            None => EditResult::Text(c, 0),
        }
    } else {
        EditResult::Text(c, 0)
    }
}

/// `r` is what an edit of the text `content` of the file at `path` reports
/// when the edit comes to `e`: the pattern's error; `NotFound` when nothing
/// matched (other than an append or prepend); else the new text with its
/// byte count and match count, the diff on a dry run, and the write of the
/// new text otherwise.
pub open spec fn edit_reported(
    r: Result<EditOutcome, FsError>,
    path: Seq<char>,
    content: Seq<char>,
    e: EditResult,
    append: Option<bool>,
    prepend: Option<bool>,
    dry_run_diff: Option<bool>,
) -> bool {
    match e {
        EditResult::BadPattern(_) => r matches Err(FsError::Io(_)),
        EditResult::Text(new, n) => if n == 0 && !flag(append, false) && !flag(prepend, false) {
            r matches Err(FsError::NotFound(p)) && p@ == path
        } else {
            r matches Ok(o) && o.content@ == new && o.matches == n && o.bytes == byte_count(new)
                && o.write == !flag(dry_run_diff, false) && (flag(dry_run_diff, false) ==> (
            o.diff matches Some(d) && d@ == unified_diff_text(
                content,
                new,
                "original"@,
                "modified"@,
            ))) && (!flag(dry_run_diff, false) ==> o.diff is None)
        },
    }
}

/// A dry run previews the edit: it reports the same outcome as the real
/// run (the same error, or the same new text, byte count and match count),
/// asks for no write and carries the diff, while the real run asks for the
/// write of the new text and carries no diff.
pub proof fn law_dry_run_previews_edit(
    dry: Result<EditOutcome, FsError>,
    full: Result<EditOutcome, FsError>,
    path: Seq<char>,
    content: Seq<char>,
    e: EditResult,
    append: Option<bool>,
    prepend: Option<bool>,
)
    requires
        edit_reported(dry, path, content, e, append, prepend, Some(true)),
        edit_reported(full, path, content, e, append, prepend, None),
    ensures
        dry is Ok <==> full is Ok,
        full matches Err(x) ==> (dry matches Err(y) && fs_error_message(x) == fs_error_message(y)),
        full matches Ok(b) ==> (dry matches Ok(a) && a.content@ == b.content@ && a.bytes == b.bytes
            && a.matches == b.matches && !a.write && a.diff is Some && b.write && b.diff is None
            && b.bytes == byte_count(b.content@)),
{
}

/// A search and replace is plain text unless a regular expression is asked
/// for (`regex` left out or `false`): every occurrence of `search` is
/// replaced, unless `replace_all` is `false`, in which case only the first
/// is, counting one match; the count is the number of occurrences, and an
/// edit whose search does not occur leaves the text as it is, with no
/// match.
pub proof fn law_plain_search_by_default(
    c: Seq<char>,
    search: Seq<char>,
    rep: Seq<char>,
    regex: Option<bool>,
    replace_all_opt: Option<bool>,
    before: Option<Seq<char>>,
    after: Option<Seq<char>>,
    append: Option<bool>,
    prepend: Option<bool>,
)
    requires
        regex is None || regex == Some(false),
        append is None || append == Some(false),
        prepend is None || prepend == Some(false),
    ensures
        ({
            let e = edit_result(
                c,
                Some(search),
                Some(rep),
                regex,
                replace_all_opt,
                before,
                after,
                append,
                prepend,
            );
            let n = count_matches(c, search);
            &&& n == 0 ==> e == EditResult::Text(c, 0)
            &&& n > 0 && replace_all_opt != Some(false) ==> e == EditResult::Text(
                replace_all(c, search, rep),
                n,
            )
            &&& n > 0 && replace_all_opt == Some(false) ==> e == EditResult::Text(
                replace_first(c, search, rep),
                1,
            )
        }),
{
}

/// Appending and prepending: with `append` set, `replace` is added at the
/// end (one match) whatever else is asked; with `prepend` set (and not
/// `append`), it is added at the start; with neither text to add, the text
/// is left as it is with no match.
pub proof fn law_append_prepend(
    c: Seq<char>,
    search: Option<Seq<char>>,
    rep: Option<Seq<char>>,
    regex: Option<bool>,
    replace_all_opt: Option<bool>,
    before: Option<Seq<char>>,
    after: Option<Seq<char>>,
    prepend: Option<bool>,
)
    ensures
        rep matches Some(r) ==> edit_result(
            c,
            search,
            rep,
            regex,
            replace_all_opt,
            before,
            after,
            Some(true),
            prepend,
        ) == EditResult::Text(c + r, 1),
        rep matches Some(r) ==> edit_result(
            c,
            search,
            rep,
            regex,
            replace_all_opt,
            before,
            after,
            None,
            Some(true),
        ) == EditResult::Text(r + c, 1),
        rep is None ==> edit_result(
            c,
            search,
            rep,
            regex,
            replace_all_opt,
            before,
            after,
            Some(true),
            prepend,
        ) == EditResult::Text(c, 0),
{
}

/// Inserting before or after a marker (no search given, no append or
/// prepend): the replacement goes right before, or right after, the first
/// occurrence of the marker, one match; a marker that does not occur leaves
/// the text as it is with no match.
pub proof fn law_insert_at_marker(c: Seq<char>, marker: Seq<char>, rep: Seq<char>, regex: Option<bool>, replace_all_opt: Option<bool>)
    ensures
        ({
            let b = edit_result(c, None, Some(rep), regex, replace_all_opt, Some(marker), None, None, None);
            let a = edit_result(c, None, Some(rep), regex, replace_all_opt, None, Some(marker), None, None);
            match find_first(c, marker) {
                Some(p) => b == EditResult::Text(c.take(p) + rep + c.skip(p), 1) && a
                    == EditResult::Text(c.take(p + marker.len()) + rep + c.skip(p + marker.len()), 1),
                None => b == EditResult::Text(c, 0) && a == EditResult::Text(c, 0),
            }
        }),
{
}

/// The outcome of an edit: the new text and its byte count, the number of
/// matches, the diff of a dry run, and whether the new text is to be
/// written back.
#[derive(Debug)]
pub struct EditOutcome {
    pub content: String,
    pub bytes: usize,
    pub matches: usize,
    pub diff: Option<String>,
    pub write: bool,
}

/// `t` with `r` inserted at character `i`.
fn inserted(t: &Vec<char>, i: usize, r: &str) -> (out: String)
    requires
        i <= t@.len(),
    ensures
        out@ == insert_at(t@, i as int, r@),
{
    let mut out = string_from(t, 0, i);
    let rs = to_chars(r);
    append_chars(&mut out, &rs, 0, rs.len());
    append_chars(&mut out, t, i, t.len());
    assert(rs@.subrange(0, rs@.len() as int) =~= rs@);
    assert(t@.subrange(0, i as int) =~= t@.take(i as int));
    assert(t@.subrange(i as int, t@.len() as int) =~= t@.skip(i as int));
    out
}

/// The new text and match count of a plain (non regular expression)
/// replacement.
fn plain_replace(cs: &Vec<char>, s: &str, r: &str, all: bool) -> (out: (String, usize))
    requires
        cs@.len() < usize::MAX,
    ensures
        out.1 == count_matches(cs@, s@) || (out.1 == 1 && !all && count_matches(cs@, s@) > 0),
        count_matches(cs@, s@) == 0 ==> out.1 == 0 && out.0@ == cs@,
        count_matches(cs@, s@) > 0 && all ==> out.0@ == replace_all(cs@, s@, r@) && out.1
            == count_matches(cs@, s@),
        count_matches(cs@, s@) > 0 && !all ==> out.0@ == replace_first(cs@, s@, r@) && out.1 == 1,
{
    let ss = to_chars(s);
    let rs = to_chars(r);
    let n = count_occurrences(cs, &ss);
    if n == 0 {
        return (string_from(cs, 0, cs.len()), 0);
    }
    if all {
        let mut out = String::new();
        push_replace_all(&mut out, cs, &ss, &rs);
        assert(Seq::<char>::empty() + replace_all(cs@, ss@, rs@) =~= replace_all(cs@, ss@, rs@));
        (out, n)
    } else {
        match find_first_index(cs, &ss) {
            Some(i) => {
                proof {
                    lemma_find_first_in_bounds(cs@, ss@);
                }
                let mut out = string_from(cs, 0, i);
                append_chars(&mut out, &rs, 0, rs.len());
                append_chars(&mut out, cs, i + ss.len(), cs.len());
                assert(rs@.subrange(0, rs@.len() as int) =~= rs@);
                assert(cs@.subrange(0, i as int) =~= cs@.take(i as int));
                assert(cs@.subrange((i + ss@.len()) as int, cs@.len() as int) =~= cs@.skip(
                    i + ss@.len(),
                ));
                (out, 1)
            },
            None => {
                proof {
                    lemma_count_positive_finds(cs@, ss@);
                }
                (string_from(cs, 0, cs.len()), 0)
            },
        }
    }
}

proof fn lemma_find_from_bounds(t: Seq<char>, p: Seq<char>, i: int)
    ensures
        find_from(t, p, i) matches Some(k) ==> i <= k && k + p.len() <= t.len() && occurs_at(
            t,
            p,
            k,
        ),
    decreases t.len() + 1 - i,
{
    if !(i < 0 || i + p.len() > t.len()) && !occurs_at(t, p, i) {
        lemma_find_from_bounds(t, p, i + 1);
    }
}

proof fn lemma_find_first_in_bounds(t: Seq<char>, p: Seq<char>)
    ensures
        find_first(t, p) matches Some(k) ==> 0 <= k && k + p.len() <= t.len(),
{
    lemma_find_from_bounds(t, p, 0);
}

/// A pattern that occurs at all is found.
proof fn lemma_count_positive_finds(t: Seq<char>, p: Seq<char>)
    requires
        count_matches(t, p) > 0,
    ensures
        find_first(t, p) is Some,
{
    if p.len() == 0 {
        assert(t.subrange(0, 0) =~= p);
    } else {
        assert(t.skip(0) =~= t);
        lemma_count_finds_from(t, p, 0);
    }
}

proof fn lemma_count_finds_from(t: Seq<char>, p: Seq<char>, i: int)
    requires
        0 <= i <= t.len(),
        p.len() > 0,
        count_matches(t.skip(i), p) > 0,
    ensures
        find_from(t, p, i) is Some,
    decreases t.len() - i,
{
    let rest = t.skip(i);
    if rest.len() < p.len() {
    } else if rest.take(p.len() as int) == p {
        assert(rest.take(p.len() as int) =~= t.subrange(i, i + p.len()));
        assert(occurs_at(t, p, i));
    } else {
        assert(rest.take(p.len() as int) =~= t.subrange(i, i + p.len()));
        assert(rest.skip(1) =~= t.skip(i + 1));
        lemma_count_finds_from(t, p, i + 1);
    }
}

impl FileSystem {
    /// Applies an edit to the text `content` of the file at `path`. A
    /// regular expression that does not compile is an I/O error carrying
    /// its message; an edit that matched nothing (other than an append or
    /// prepend) is `NotFound`. A dry run computes the diff and writes
    /// nothing.
    pub fn apply_edit(
        &self,
        path: &str,
        content: &str,
        search: Option<&str>,
        replace: Option<&str>,
        regex: Option<bool>,
        replace_all: Option<bool>,
        insert_before: Option<&str>,
        insert_after: Option<&str>,
        append: Option<bool>,
        prepend: Option<bool>,
        dry_run_diff: Option<bool>,
    ) -> (r: Result<EditOutcome, FsError>)
        requires
            content@.len() < usize::MAX,
        ensures
            edit_reported(
                r,
                path@,
                content@,
                edit_result(
                    content@,
                    opt_str_view(search),
                    opt_str_view(replace),
                    regex,
                    replace_all,
                    opt_str_view(insert_before),
                    opt_str_view(insert_after),
                    append,
                    prepend,
                ),
                append,
                prepend,
                dry_run_diff,
            ),
    {
        let cs = to_chars(content);
        let do_append = match append {
            Some(b) => b,
            None => false,
        };
        let do_prepend = match prepend {
            Some(b) => b,
            None => false,
        };
        let (new_content, matches): (String, usize) = if do_append {
            match replace {
                Some(r) => {
                    let mut out = content.to_owned();
                    out.append(r);
                    (out, 1)
                },
                None => (content.to_owned(), 0),
            }
        } else if do_prepend {
            match replace {
                Some(r) => {
                    let mut out = r.to_owned();
                    out.append(content);
                    (out, 1)
                },
                None => (content.to_owned(), 0),
            }
        } else if search.is_some() && replace.is_some() {
            let s = search.unwrap();
            let r = replace.unwrap();
            let use_regex = match regex {
                Some(b) => b,
                None => false,
            };
            let all = match replace_all {
                Some(b) => b,
                None => true,
            };
            if use_regex {
                match regex_error(s) {
                    Some(m) => {
                        return Err(FsError::Io(other_io_error(m)));
                    },
                    None => {},
                }
                let n = regex_count(s, content);
                if n > 0 {
                    if all {
                        (regex_replace_all(s, content, r), n)
                    } else {
                        (regex_replace_first(s, content, r), 1)
                    }
                } else {
                    (content.to_owned(), 0)
                }
            } else {
                plain_replace(&cs, s, r, all)
            }
        } else if insert_before.is_some() && replace.is_some() {
            let b = insert_before.unwrap();
            let bs = to_chars(b);
            match find_first_index(&cs, &bs) {
                Some(pos) => {
                    proof {
                        lemma_find_first_in_bounds(cs@, bs@);
                    }
                    (inserted(&cs, pos, replace.unwrap()), 1)
                },
                None => (content.to_owned(), 0),
            }
        } else if insert_after.is_some() && replace.is_some() {
            let a = insert_after.unwrap();
            let a_chars = to_chars(a);
            match find_first_index(&cs, &a_chars) {
                Some(pos) => {
                    proof {
                        lemma_find_first_in_bounds(cs@, a_chars@);
                    }
                    (inserted(&cs, pos + a_chars.len(), replace.unwrap()), 1)
                },
                None => (content.to_owned(), 0),
            }
        } else {
            (content.to_owned(), 0)
        };
        let dry = match dry_run_diff {
            Some(b) => b,
            None => false,
        };
        let found = matches > 0 || do_append || do_prepend;
        let diff = if dry && found {
            Some(unified_diff(content, new_content.as_str(), "original", "modified"))
        } else {
            None
        };
        self.edit_outcome(path, new_content, matches, append, prepend, dry_run_diff, diff)
    }

    /// What an edit reports once its new text and match count are known: an
    /// edit that matched nothing (other than an append or prepend) is
    /// `NotFound`; otherwise the new text with its byte count, the `diff` of
    /// a dry run, and whether to write the text back (not on a dry run).
    pub fn edit_outcome(
        &self,
        path: &str,
        new_content: String,
        matches: usize,
        append: Option<bool>,
        prepend: Option<bool>,
        dry_run_diff: Option<bool>,
        diff: Option<String>,
    ) -> (r: Result<EditOutcome, FsError>)
        ensures
            if matches == 0 && !flag(append, false) && !flag(prepend, false) {
                r matches Err(FsError::NotFound(p)) && p@ == path@
            } else {
                r matches Ok(o) && o.content == new_content && o.matches == matches && o.bytes
                    == byte_count(new_content@) && o.write == !flag(dry_run_diff, false) && o.diff
                    == (if flag(dry_run_diff, false) {
                    diff
                } else {
                    None
                })
            },
    {
        let do_append = match append {
            Some(b) => b,
            None => false,
        };
        let do_prepend = match prepend {
            Some(b) => b,
            None => false,
        };
        if matches == 0 && !do_append && !do_prepend {
            return Err(FsError::NotFound(path.to_owned()));
        }
        let dry = match dry_run_diff {
            Some(b) => b,
            None => false,
        };
        let bytes = new_content.as_str().len();
        let kept = if dry {
            diff
        } else {
            None
        };
        Ok(EditOutcome { content: new_content, bytes, matches, diff: kept, write: !dry })
    }
}

// ---------------------------------------------------------------------------
// Searching file contents
// ---------------------------------------------------------------------------
/// A line without the `\r` of a `\r\n` ending.
pub open spec fn strip_cr(l: Seq<char>) -> Seq<char> {
    if l.len() > 0 && l.last() == '\r' {
        l.drop_last()
    } else {
        l
    }
}

pub open spec fn line_scan(s: Seq<char>) -> (Seq<Seq<char>>, Seq<char>)
    decreases s.len(),
{
    if s.len() == 0 {
        (Seq::empty(), Seq::empty())
    } else {
        let p = line_scan(s.drop_last());
        if s.last() == '\n' {
            (p.0.push(strip_cr(p.1)), Seq::empty())
        } else {
            (p.0, p.1.push(s.last()))
        }
    }
}

/// The lines of a text (`str::lines`): split at `\n`, a `\r` before the
/// `\n` dropped, no empty line after a final `\n`.
pub open spec fn text_lines(s: Seq<char>) -> Seq<Seq<char>> {
    let p = line_scan(s);
    if p.1.len() > 0 {
        p.0.push(p.1)
    } else {
        p.0
    }
}

/// The (1-based) numbers and texts of the lines that contain `q`.
pub open spec fn matching_lines(ls: Seq<Seq<char>>, q: Seq<char>) -> Seq<(int, Seq<char>)>
    decreases ls.len(),
{
    if ls.len() == 0 {
        Seq::empty()
    } else {
        let prev = matching_lines(ls.drop_last(), q);
        if find_first(ls.last(), q) is Some {
            prev.push((ls.len() as int, ls.last()))
        } else {
            prev
        }
    }
}

/// The number of times `c` occurs in `s`.
pub open spec fn count_char(s: Seq<char>, c: char) -> nat
    decreases s.len(),
{
    if s.len() == 0 {
        0
    } else {
        count_char(s.drop_last(), c) + if s.last() == c {
            1nat
        } else {
            0nat
        }
    }
}

proof fn lemma_line_scan_counts(s: Seq<char>)
    ensures
        line_scan(s).0.len() == count_char(s, '\n'),
        line_scan(s).1.len() == 0 <==> (s.len() == 0 || s.last() == '\n'),
        !line_scan(s).1.contains('\n'),
        forall|i: int|
            0 <= i < line_scan(s).0.len() ==> !(#[trigger] line_scan(s).0[i]).contains('\n'),
    decreases s.len(),
{
    if s.len() > 0 {
        lemma_line_scan_counts(s.drop_last());
        let p = line_scan(s.drop_last());
        if s.last() == '\n' {
            let l = strip_cr(p.1);
            assert(!l.contains('\n')) by {
                if l.contains('\n') {
                    let k = choose|k: int| 0 <= k < l.len() && l[k] == '\n';
                    assert(p.1[k] == l[k]);
                }
            }
            assert forall|i: int| 0 <= i < p.0.push(l).len() implies !(#[trigger] p.0.push(
                l,
            )[i]).contains('\n') by {
                if i < p.0.len() {
                    assert(p.0.push(l)[i] == p.0[i]);
                }
            }
        } else {
            let cur = p.1.push(s.last());
            assert(cur.len() > 0);
            assert(!cur.contains('\n')) by {
                if cur.contains('\n') {
                    let k = choose|k: int| 0 <= k < cur.len() && cur[k] == '\n';
                    if k < p.1.len() {
                        assert(p.1[k] == cur[k]);
                    }
                }
            }
        }
    }
}

/// Every line counts, empty ones included: a text has one line per `\n`,
/// plus one for a last line that does not end with `\n`; no line holds a
/// `\n`. So the line numbers a search reports are 1 plus the number of
/// `\n` before the line.
pub proof fn law_every_line_counts(s: Seq<char>)
    ensures
        text_lines(s).len() == count_char(s, '\n') + if s.len() > 0 && s.last() != '\n' {
            1nat
        } else {
            0nat
        },
        forall|i: int| 0 <= i < text_lines(s).len() ==> !(#[trigger] text_lines(s)[i]).contains('\n'),
{
    lemma_line_scan_counts(s);
    let p = line_scan(s);
    if p.1.len() > 0 {
        assert forall|i: int| 0 <= i < text_lines(s).len() implies !(
        #[trigger] text_lines(s)[i]).contains('\n') by {
            if i < p.0.len() {
                assert(text_lines(s)[i] == p.0[i]);
            }
        }
    }
}

/// A search reports, in order, exactly the lines that contain the query,
/// each with its 1-based number among all lines.
pub proof fn law_matching_lines(ls: Seq<Seq<char>>, q: Seq<char>)
    ensures
        forall|k: int|
            0 <= k < matching_lines(ls, q).len() ==> 1 <= (#[trigger] matching_lines(ls, q)[k]).0
                <= ls.len() && matching_lines(ls, q)[k].1 == ls[matching_lines(ls, q)[k].0 - 1]
                && find_first(matching_lines(ls, q)[k].1, q) is Some,
        forall|k: int, j: int|
            0 <= k < j < matching_lines(ls, q).len() ==> (#[trigger] matching_lines(ls, q)[k]).0
                < (#[trigger] matching_lines(ls, q)[j]).0,
        forall|i: int|
            0 <= i < ls.len() && find_first(#[trigger] ls[i], q) is Some ==> exists|k: int|
                0 <= k < matching_lines(ls, q).len() && matching_lines(ls, q)[k].0 == i + 1,
    decreases ls.len(),
{
    if ls.len() > 0 {
        let pl = ls.drop_last();
        law_matching_lines(pl, q);
        let prev = matching_lines(pl, q);
        let ml = matching_lines(ls, q);
        assert forall|k: int| 0 <= k < prev.len() implies 1 <= (#[trigger] prev[k]).0 <= pl.len()
            && prev[k].1 == ls[prev[k].0 - 1] && find_first(prev[k].1, q) is Some by {
            assert(pl[prev[k].0 - 1] == ls[prev[k].0 - 1]);
        }
        if find_first(ls.last(), q) is Some {
            assert(ml == prev.push((ls.len() as int, ls.last())));
            assert forall|k: int| 0 <= k < ml.len() implies 1 <= (#[trigger] ml[k]).0 <= ls.len()
                && ml[k].1 == ls[ml[k].0 - 1] && find_first(ml[k].1, q) is Some by {
                if k < prev.len() {
                    assert(ml[k] == prev[k]);
                }
            }
            assert forall|k: int, j: int| 0 <= k < j < ml.len() implies (#[trigger] ml[k]).0 < (
            #[trigger] ml[j]).0 by {
                assert(ml[k] == prev[k]);
                if j < prev.len() {
                    assert(ml[j] == prev[j]);
                    assert(prev[k].0 < prev[j].0);
                }
            }
            assert forall|i: int| 0 <= i < ls.len() && find_first(#[trigger] ls[i], q) is Some implies exists|k: int|
                0 <= k < ml.len() && ml[k].0 == i + 1 by {
                if i < pl.len() {
                    assert(pl[i] == ls[i]);
                    let k = choose|k: int| 0 <= k < prev.len() && prev[k].0 == i + 1;
                    assert(ml[k] == prev[k]);
                } else {
                    assert(ml[prev.len() as int].0 == i + 1);
                }
            }
        } else {
            assert forall|i: int| 0 <= i < ls.len() && find_first(#[trigger] ls[i], q) is Some implies exists|k: int|
                0 <= k < ml.len() && ml[k].0 == i + 1 by {
                assert(pl[i] == ls[i]);
            }
        }
    }
}

/// `out` reports the matching lines `ml` of `file`.
pub open spec fn reports(out: Seq<GrepMatch>, file: Seq<char>, ml: Seq<(int, Seq<char>)>) -> bool {
    &&& out.len() == ml.len()
    &&& forall|i: int|
        0 <= i < out.len() ==> (#[trigger] out[i]).file@ == file && out[i].line == ml[i].0
            && out[i].content@ == ml[i].1
}

fn sub_chars(cs: &Vec<char>, from: usize, to: usize) -> (r: Vec<char>)
    requires
        from <= to <= cs@.len(),
    ensures
        r@ == cs@.subrange(from as int, to as int),
{
    let mut out: Vec<char> = Vec::new();
    let mut i = from;
    while i < to
        invariant
            from <= i <= to <= cs@.len(),
            out@ == cs@.subrange(from as int, i as int),
        decreases to - i,
    {
        out.push(cs[i]);
        assert(cs@.subrange(from as int, i as int).push(cs@[i as int]) =~= cs@.subrange(
            from as int,
            (i + 1) as int,
        ));
        i = i + 1;
    }
    out
}

/// Reports line number `lineno` (text `cs[from..to]`) when it contains
/// `q`.
fn report_line(
    out: &mut Vec<GrepMatch>,
    file: &str,
    cs: &Vec<char>,
    from: usize,
    to: usize,
    lineno: usize,
    q: &Vec<char>,
)
    requires
        from <= to <= cs@.len(),
    ensures
        ({
            let line = cs@.subrange(from as int, to as int);
            if find_first(line, q@) is Some {
                final(out)@.len() == old(out)@.len() + 1 && final(out)@.subrange(
                    0,
                    old(out)@.len() as int,
                ) == old(out)@ && final(out)@.last().file@ == file@ && final(out)@.last().line
                    == lineno && final(out)@.last().content@ == line
            } else {
                final(out)@ == old(out)@
            }
        }),
{
    let line = sub_chars(cs, from, to);
    if find_first_index(&line, q).is_some() {
        let m = GrepMatch { file: file.to_owned(), line: lineno, content: string_from(cs, from, to) };
        out.push(m);
        assert(out@.subrange(0, out@.len() - 1) =~= old(out)@);
    }
}

proof fn lemma_reports_step(
    before: Seq<GrepMatch>,
    after: Seq<GrepMatch>,
    file: Seq<char>,
    ls: Seq<Seq<char>>,
    line: Seq<char>,
    q: Seq<char>,
)
    requires
        reports(before, file, matching_lines(ls, q)),
        find_first(line, q) is Some ==> after.len() == before.len() + 1 && after.subrange(
            0,
            before.len() as int,
        ) == before && after.last().file@ == file && after.last().line == ls.len() + 1
            && after.last().content@ == line,
        find_first(line, q) is None ==> after == before,
    ensures
        reports(after, file, matching_lines(ls.push(line), q)),
{
    assert(ls.push(line).drop_last() =~= ls);
    let ml = matching_lines(ls.push(line), q);
    if find_first(line, q) is Some {
        assert forall|i: int| 0 <= i < after.len() implies (#[trigger] after[i]).file@ == file
            && after[i].line == ml[i].0 && after[i].content@ == ml[i].1 by {
            if i < before.len() {
                assert(after[i] == after.subrange(0, before.len() as int)[i]);
            }
        }
    }
}

impl FileSystem {
    /// The lines of `content` (the text of `file`) that contain `query`,
    /// numbered from 1.
    pub fn grep_lines(&self, file: &str, content: &str, query: &str) -> (r: Vec<GrepMatch>)
        ensures
            reports(r@, file@, matching_lines(text_lines(content@), query@)),
    {
        let cs = to_chars(content);
        let q = to_chars(query);
        let n = cs.len();
        let mut out: Vec<GrepMatch> = Vec::new();
        let mut start: usize = 0;
        let mut lines: usize = 0;
        let mut i: usize = 0;
        assert(cs@.take(0) =~= Seq::<char>::empty());
        while i < n
            invariant
                n == cs@.len(),
                cs@ == content@,
                q@ == query@,
                start <= i <= n,
                lines <= start,
                lines == line_scan(cs@.take(i as int)).0.len(),
                line_scan(cs@.take(i as int)).1 == cs@.subrange(start as int, i as int),
                reports(out@, file@, matching_lines(line_scan(cs@.take(i as int)).0, q@)),
            decreases n - i,
        {
            let c = cs[i];
            assert(cs@.take(i + 1).drop_last() =~= cs@.take(i as int));
            assert(cs@.take(i + 1).last() == c);
            if c == '\n' {
                let ghost ls = line_scan(cs@.take(i as int)).0;
                let ghost cur = cs@.subrange(start as int, i as int);
                let end = if i > start && cs[i - 1] == '\r' {
                    i - 1
                } else {
                    i
                };
                assert(cs@.subrange(start as int, end as int) == strip_cr(cur)) by {
                    if i > start && cs@[i - 1] == '\r' {
                        assert(cur.last() == cs@[i - 1]);
                        assert(cur.drop_last() =~= cs@.subrange(start as int, end as int));
                    } else {
                        assert(end == i);
                    }
                }
                let ghost before = out@;
                report_line(&mut out, file, &cs, start, end, lines + 1, &q);
                proof {
                    lemma_reports_step(before, out@, file@, ls, strip_cr(cur), q@);
                }
                lines = lines + 1;
                start = i + 1;
                assert(cs@.subrange(start as int, (i + 1) as int) =~= Seq::<char>::empty());
            } else {
                assert(cs@.subrange(start as int, i as int).push(c) =~= cs@.subrange(
                    start as int,
                    (i + 1) as int,
                ));
            }
            i = i + 1;
        }
        assert(cs@.take(n as int) =~= cs@);
        if start < n {
            let ghost ls = line_scan(cs@).0;
            let ghost before = out@;
            report_line(&mut out, file, &cs, start, n, lines + 1, &q);
            proof {
                lemma_reports_step(before, out@, file@, ls, cs@.subrange(start as int, n as int), q@);
            }
        }
        out
    }
}


// ---------------------------------------------------------------------------
// Whole listings and whole searches
// ---------------------------------------------------------------------------
/// A directory entry as the disk reports it.
#[derive(Debug)]
pub struct RawEntry {
    pub name: String,
    pub is_symlink: bool,
    pub is_dir: bool,
    /// The length of the file the entry names.
    pub len: u64,
}

/// What a listing's target turned out to be.
#[derive(Debug, Clone, Copy)]
pub enum DirProbe {
    Missing,
    NotDir,
    Dir,
}

/// The listing entry of a raw entry: a symlink (not followed) before a
/// directory before a file of its length; only files count bytes.
pub open spec fn entry_of(e: RawEntry) -> ListEntry {
    ListEntry {
        name: e.name,
        kind: if e.is_symlink {
            EntryKind::Symlink
        } else if e.is_dir {
            EntryKind::Dir
        } else {
            EntryKind::File
        },
        bytes: if e.is_symlink || e.is_dir {
            0
        } else {
            e.len
        },
    }
}

/// One hit of a search: the file, the 1-based line number and the line.
pub open spec fn hit_of(m: GrepMatch) -> (Seq<char>, int, Seq<char>) {
    (m.file@, m.line as int, m.content@)
}

pub open spec fn hits_view(ms: Seq<GrepMatch>) -> Seq<(Seq<char>, int, Seq<char>)> {
    ms.map_values(|m: GrepMatch| hit_of(m))
}

/// The hits in one file's matching lines.
pub open spec fn file_hits(f: Seq<char>, ml: Seq<(int, Seq<char>)>) -> Seq<
    (Seq<char>, int, Seq<char>),
> {
    ml.map_values(|p: (int, Seq<char>)| (f, p.0, p.1))
}

pub open spec fn files_view(files: Seq<(String, Option<String>)>) -> Seq<
    (Seq<char>, Option<Seq<char>>),
> {
    files.map_values(|p: (String, Option<String>)| (p.0@, opt_text_view(p.1)))
}

/// The hits of a search over walked files, in walk order and then line
/// order; a file whose text could not be read (`None`) has none.
pub open spec fn search_hits(files: Seq<(Seq<char>, Option<Seq<char>>)>, q: Seq<char>) -> Seq<
    (Seq<char>, int, Seq<char>),
>
    decreases files.len(),
{
    if files.len() == 0 {
        Seq::empty()
    } else {
        let prev = search_hits(files.drop_last(), q);
        match files.last().1 {
            Some(c) => prev + file_hits(files.last().0, matching_lines(text_lines(c), q)),
            None => prev,
        }
    }
}

impl FileSystem {
    /// The listing of a directory from its raw entries: `NotFound` when the
    /// target is missing, `NotDir` when it is not a directory, else one
    /// entry per raw entry, sorted by name.
    pub fn listing(&self, path: &str, target: DirProbe, raw: Vec<RawEntry>) -> (r: Result<
        Vec<ListEntry>,
        FsError,
    >)
        ensures
            match target {
                DirProbe::Missing => r matches Err(FsError::NotFound(p)) && p@ == path@,
                DirProbe::NotDir => r matches Err(FsError::NotDir(p)) && p@ == path@,
                DirProbe::Dir => r matches Ok(v) && v@.to_multiset() == raw@.map_values(
                    |e: RawEntry| entry_of(e),
                ).to_multiset() && sorted_by_name(v@),
            },
    {
        broadcast use vstd::seq_lib::group_to_multiset_ensures;

        match target {
            DirProbe::Missing => return Err(FsError::NotFound(path.to_owned())),
            DirProbe::NotDir => return Err(FsError::NotDir(path.to_owned())),
            DirProbe::Dir => {},
        }
        let ghost all = raw@.map_values(|e: RawEntry| entry_of(e));
        let mut rest = raw;
        let mut out: Vec<ListEntry> = Vec::new();
        while rest.len() > 0
            invariant
                out@.to_multiset().add(rest@.map_values(|e: RawEntry| entry_of(e)).to_multiset())
                    == all.to_multiset(),
            decreases rest.len(),
        {
            let ghost before = rest@;
            let e = rest.pop().unwrap();
            assert(before.map_values(|e: RawEntry| entry_of(e)) =~= rest@.map_values(
                |e: RawEntry| entry_of(e),
            ).push(entry_of(e)));
            let entry = EntrySummary::classify(e.is_symlink, e.is_dir, e.len).into_entry(e.name);
            assert(entry == entry_of(e));
            let ghost old_out = out@;
            out.push(entry);
            proof {
                let rm = rest@.map_values(|e: RawEntry| entry_of(e));
                assert(out@ =~= old_out.push(entry));
                old_out.to_multiset_ensures();
                rm.to_multiset_ensures();
                assert(out@.to_multiset() =~= old_out.to_multiset().insert(entry));
                assert(rm.push(entry).to_multiset() =~= rm.to_multiset().insert(entry));
                assert(old_out.to_multiset().insert(entry).add(rm.to_multiset())
                    =~= old_out.to_multiset().add(rm.to_multiset().insert(entry)));
            }
        }
        assert(rest@.map_values(|e: RawEntry| entry_of(e)) =~= Seq::<ListEntry>::empty());
        Ok(sort_entries(out))
    }

    /// Searches walked files for `query`: each file with its text, or
    /// `None` when it could not be read as text. The hits come in walk
    /// order, then line order.
    pub fn search_files(&self, files: Vec<(String, Option<String>)>, query: &str) -> (r: Vec<
        GrepMatch,
    >)
        ensures
            hits_view(r@) == search_hits(files_view(files@), query@),
    {
        let ghost fv = files_view(files@);
        let mut out: Vec<GrepMatch> = Vec::new();
        let mut i: usize = 0;
        assert(fv.take(0) =~= Seq::<(Seq<char>, Option<Seq<char>>)>::empty());
        assert(hits_view(out@) =~= Seq::<(Seq<char>, int, Seq<char>)>::empty());
        while i < files.len()
            invariant
                i <= files@.len(),
                fv == files_view(files@),
                hits_view(out@) == search_hits(fv.take(i as int), query@),
            decreases files.len() - i,
        {
            assert(fv.take(i + 1).drop_last() =~= fv.take(i as int));
            assert(fv.take(i + 1).last() == fv[i as int]);
            match &files[i].1 {
                Some(content) => {
                    let mut found = self.grep_lines(files[i].0.as_str(), content.as_str(), query);
                    let ghost before = out@;
                    let ghost fm = found@;
                    out.append(&mut found);
                    proof {
                        let ml = matching_lines(text_lines(content@), query@);
                        assert(hits_view(fm) =~= file_hits(files@[i as int].0@, ml));
                        assert(hits_view(out@) =~= hits_view(before) + hits_view(fm));
                    }
                },
                None => {},
            }
            i = i + 1;
        }
        assert(fv.take(files@.len() as int) =~= fv);
        out
    }
}

} // verus!
