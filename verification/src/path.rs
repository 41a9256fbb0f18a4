//! Lexical path handling: splitting a slash-separated path into components,
//! collapsing `.` and `..` without touching disk, rendering components back
//! into a path string, and component-wise prefix tests.
//!
//! The semantics follow Unix paths as the standard library reads them: a
//! leading `/` is the root, empty segments and `.` segments are skipped (a
//! relative path that starts with a `.` segment keeps one leading `.`), and
//! `..` is a parent-directory component.

use vstd::prelude::*;
use vstd::string::StrSliceExecFns;
use vstd::string::StringExecFns;

verus! {

/// One lexical component of a path.
pub enum Component {
    RootDir,
    CurDir,
    ParentDir,
    Normal(String),
}

/// Mathematical model of a [`Component`].
pub enum CompView {
    RootDir,
    CurDir,
    ParentDir,
    Normal(Seq<char>),
}

impl View for Component {
    type V = CompView;

    open spec fn view(&self) -> CompView {
        match self {
            Component::RootDir => CompView::RootDir,
            Component::CurDir => CompView::CurDir,
            Component::ParentDir => CompView::ParentDir,
            Component::Normal(s) => CompView::Normal(s@),
        }
    }
}

pub open spec fn comps_view(cs: Seq<Component>) -> Seq<CompView> {
    cs.map_values(|c: Component| c@)
}

// ---------------------------------------------------------------------------
// Parsing
// ---------------------------------------------------------------------------
/// Adds the component that a finished segment stands for: empty and `.`
/// segments stand for nothing, `..` for the parent directory.
pub open spec fn push_segment(cs: Seq<CompView>, seg: Seq<char>) -> Seq<CompView> {
    if seg.len() == 0 || seg == seq!['.'] {
        cs
    } else if seg == seq!['.', '.'] {
        cs.push(CompView::ParentDir)
    } else {
        cs.push(CompView::Normal(seg))
    }
}

/// Left-to-right scan of `s`: the components of the finished segments, and
/// the segment being read.
pub open spec fn scan(s: Seq<char>) -> (Seq<CompView>, Seq<char>)
    decreases s.len(),
{
    if s.len() == 0 {
        (Seq::empty(), Seq::empty())
    } else {
        let p = scan(s.drop_last());
        if s.last() == '/' {
            (push_segment(p.0, p.1), Seq::empty())
        } else {
            (p.0, p.1.push(s.last()))
        }
    }
}

/// The components of every segment of `s`, in order.
pub open spec fn body_components(s: Seq<char>) -> Seq<CompView> {
    push_segment(scan(s).0, scan(s).1)
}

pub open spec fn has_root(s: Seq<char>) -> bool {
    s.len() > 0 && s[0] == '/'
}

/// A relative path whose first segment is exactly `.` keeps a leading `.`.
pub open spec fn has_leading_cur_dir(s: Seq<char>) -> bool {
    !has_root(s) && s.len() > 0 && s[0] == '.' && (s.len() == 1 || s[1] == '/')
}

/// The components of a path.
pub open spec fn path_components(s: Seq<char>) -> Seq<CompView> {
    if has_root(s) {
        seq![CompView::RootDir] + body_components(s)
    } else if has_leading_cur_dir(s) {
        seq![CompView::CurDir] + body_components(s)
    } else {
        body_components(s)
    }
}

// ---------------------------------------------------------------------------
// Normalization and rendering
// ---------------------------------------------------------------------------
pub open spec fn norm_step(out: Seq<CompView>, c: CompView) -> Seq<CompView> {
    match c {
        CompView::CurDir => out,
        CompView::ParentDir => if out.len() > 0 && out.last() is Normal {
            out.drop_last()
        } else {
            out
        },
        _ => out.push(c),
    }
}

/// Drops `.`, and lets each `..` cancel the normal component before it (a
/// `..` with nothing to cancel is dropped).
pub open spec fn normalize_components(cs: Seq<CompView>) -> Seq<CompView>
    decreases cs.len(),
{
    if cs.len() == 0 {
        Seq::empty()
    } else {
        norm_step(normalize_components(cs.drop_last()), cs.last())
    }
}

pub open spec fn comp_text(c: CompView) -> Seq<char> {
    match c {
        CompView::RootDir => seq!['/'],
        CompView::CurDir => seq!['.'],
        CompView::ParentDir => seq!['.', '.'],
        CompView::Normal(s) => s,
    }
}

/// Appends one component to a path buffer: the root replaces the buffer,
/// anything else is joined with a `/` unless the buffer is empty or already
/// ends with one.
pub open spec fn push_text(buf: Seq<char>, c: CompView) -> Seq<char> {
    match c {
        CompView::RootDir => seq!['/'],
        _ => if buf.len() > 0 && buf.last() != '/' {
            buf + seq!['/'] + comp_text(c)
        } else {
            buf + comp_text(c)
        },
    }
}

pub open spec fn render(cs: Seq<CompView>) -> Seq<char>
    decreases cs.len(),
{
    if cs.len() == 0 {
        Seq::empty()
    } else {
        push_text(render(cs.drop_last()), cs.last())
    }
}

/// The lexically normalized form of a path.
pub open spec fn normalize_path(s: Seq<char>) -> Seq<char> {
    render(normalize_components(path_components(s)))
}

/// `p` starts with `base`, component by component.
pub open spec fn starts_with(p: Seq<char>, base: Seq<char>) -> bool {
    let a = path_components(p);
    let b = path_components(base);
    b.len() <= a.len() && a.subrange(0, b.len() as int) == b
}

/// Joins `p` onto `base`: an absolute `p` replaces `base`.
pub open spec fn join_path(base: Seq<char>, p: Seq<char>) -> Seq<char> {
    if has_root(p) {
        p
    } else if base.len() == 0 || base.last() == '/' {
        base + p
    } else {
        base + seq!['/'] + p
    }
}

/// A segment that survives parsing as a normal component.
pub open spec fn valid_segment(seg: Seq<char>) -> bool {
    &&& seg.len() > 0
    &&& !seg.contains('/')
    &&& seg != seq!['.']
    &&& seg != seq!['.', '.']
}

/// Components as parsing produces them: the root only first, and every
/// normal component a valid segment.
pub open spec fn wf_components(cs: Seq<CompView>) -> bool {
    forall|i: int|
        0 <= i < cs.len() ==> match #[trigger] cs[i] {
            CompView::RootDir => i == 0,
            CompView::CurDir => i == 0,
            CompView::ParentDir => true,
            CompView::Normal(s) => valid_segment(s),
        }
}

/// Components of a normalized path: an optional root followed by valid
/// normal components, with no `.` or `..`.
pub open spec fn is_normal_form(cs: Seq<CompView>) -> bool {
    forall|i: int|
        0 <= i < cs.len() ==> match #[trigger] cs[i] {
            CompView::RootDir => i == 0,
            CompView::CurDir => false,
            CompView::ParentDir => false,
            CompView::Normal(s) => valid_segment(s),
        }
}

pub open spec fn has_no_dot_components(cs: Seq<CompView>) -> bool {
    forall|i: int| 0 <= i < cs.len() ==> !(#[trigger] cs[i] is CurDir) && !(cs[i] is ParentDir)
}

// ---------------------------------------------------------------------------
// Lemmas
// ---------------------------------------------------------------------------
proof fn lemma_scan_current_has_no_sep(s: Seq<char>)
    ensures
        !scan(s).1.contains('/'),
    decreases s.len(),
{
    if s.len() > 0 {
        lemma_scan_current_has_no_sep(s.drop_last());
        let p = scan(s.drop_last());
        if s.last() != '/' {
            assert forall|i: int| 0 <= i < p.1.push(s.last()).len() implies p.1.push(s.last())[i]
                != '/' by {
                if i < p.1.len() {
                    assert(p.1[i] != '/');
                }
            }
        }
    }
}

proof fn lemma_push_segment_wf(cs: Seq<CompView>, seg: Seq<char>)
    requires
        wf_components(cs),
        !seg.contains('/'),
        forall|i: int| 0 <= i < cs.len() ==> !(#[trigger] cs[i] is RootDir) && !(cs[i] is CurDir),
    ensures
        wf_components(push_segment(cs, seg)),
        forall|i: int|
            0 <= i < push_segment(cs, seg).len() ==> !(#[trigger] push_segment(cs, seg)[i] is RootDir)
                && !(push_segment(cs, seg)[i] is CurDir),
{
    let r = push_segment(cs, seg);
    assert forall|i: int| 0 <= i < r.len() implies match #[trigger] r[i] {
        CompView::RootDir => i == 0,
        CompView::CurDir => i == 0,
        CompView::ParentDir => true,
        CompView::Normal(s) => valid_segment(s),
    } by {
        if i < cs.len() {
            assert(r[i] == cs[i]);
        }
    }
    assert forall|i: int| 0 <= i < r.len() implies !(#[trigger] r[i] is RootDir) && !(
    r[i] is CurDir) by {
        if i < cs.len() {
            assert(r[i] == cs[i]);
        }
    }
}

proof fn lemma_scan_wf(s: Seq<char>)
    ensures
        wf_components(scan(s).0),
        forall|i: int|
            0 <= i < scan(s).0.len() ==> !(#[trigger] scan(s).0[i] is RootDir) && !(
            scan(s).0[i] is CurDir),
    decreases s.len(),
{
    if s.len() > 0 {
        lemma_scan_wf(s.drop_last());
        lemma_scan_current_has_no_sep(s.drop_last());
        let p = scan(s.drop_last());
        if s.last() == '/' {
            lemma_push_segment_wf(p.0, p.1);
        }
    }
}

/// Parsing yields well-formed components.
pub proof fn lemma_path_components_wf(s: Seq<char>)
    ensures
        wf_components(path_components(s)),
{
    lemma_scan_wf(s);
    lemma_scan_current_has_no_sep(s);
    lemma_push_segment_wf(scan(s).0, scan(s).1);
    let b = body_components(s);
    let pc = path_components(s);
    if has_root(s) || has_leading_cur_dir(s) {
        assert forall|i: int| 0 <= i < pc.len() implies match #[trigger] pc[i] {
            CompView::RootDir => i == 0,
            CompView::CurDir => i == 0,
            CompView::ParentDir => true,
            CompView::Normal(s) => valid_segment(s),
        } by {
            if i > 0 {
                assert(pc[i] == b[i - 1]);
            }
        }
    }
}

/// Normalizing well-formed components yields the normal form, with every
/// leading root kept first.
pub proof fn lemma_normalize_normal_form(cs: Seq<CompView>)
    requires
        wf_components(cs),
    ensures
        is_normal_form(normalize_components(cs)),
        normalize_components(cs).len() <= cs.len(),
    decreases cs.len(),
{
    if cs.len() > 0 {
        let prev = cs.drop_last();
        assert forall|i: int| 0 <= i < prev.len() implies match #[trigger] prev[i] {
            CompView::RootDir => i == 0,
            CompView::CurDir => i == 0,
            CompView::ParentDir => true,
            CompView::Normal(s) => valid_segment(s),
        } by {
            assert(prev[i] == cs[i]);
        }
        lemma_normalize_normal_form(prev);
        let out = normalize_components(prev);
        let c = cs.last();
        let r = norm_step(out, c);
        assert(match cs[cs.len() - 1] {
            CompView::RootDir => cs.len() - 1 == 0,
            CompView::CurDir => cs.len() - 1 == 0,
            CompView::ParentDir => true,
            CompView::Normal(s) => valid_segment(s),
        });
        if c is RootDir {
            assert(prev.len() == 0);
            assert(out.len() == 0);
        }
        assert forall|i: int| 0 <= i < r.len() implies match #[trigger] r[i] {
            CompView::RootDir => i == 0,
            CompView::CurDir => false,
            CompView::ParentDir => false,
            CompView::Normal(s) => valid_segment(s),
        } by {
            if i < out.len() {
                assert(r[i] == out[i]);
            }
        }
    }
}

/// Normal-form components are left unchanged by normalization.
pub proof fn lemma_normalize_fixed(ns: Seq<CompView>)
    requires
        is_normal_form(ns),
    ensures
        normalize_components(ns) == ns,
    decreases ns.len(),
{
    if ns.len() > 0 {
        let prev = ns.drop_last();
        assert forall|i: int| 0 <= i < prev.len() implies match #[trigger] prev[i] {
            CompView::RootDir => i == 0,
            CompView::CurDir => false,
            CompView::ParentDir => false,
            CompView::Normal(s) => valid_segment(s),
        } by {
            assert(prev[i] == ns[i]);
        }
        lemma_normalize_fixed(prev);
        assert(match ns[ns.len() - 1] {
            CompView::RootDir => ns.len() - 1 == 0,
            CompView::CurDir => false,
            CompView::ParentDir => false,
            CompView::Normal(s) => valid_segment(s),
        });
        assert(prev.push(ns.last()) =~= ns);
    }
}

proof fn lemma_scan_append_plain(x: Seq<char>, t: Seq<char>)
    requires
        !t.contains('/'),
    ensures
        scan(x + t) == (scan(x).0, scan(x).1 + t),
    decreases t.len(),
{
    if t.len() == 0 {
        assert(x + t =~= x);
        assert(scan(x).1 + t =~= scan(x).1);
    } else {
        let t2 = t.drop_last();
        assert(!t2.contains('/')) by {
            assert forall|i: int| 0 <= i < t2.len() implies t2[i] != '/' by {
                assert(t2[i] == t[i]);
            }
        }
        lemma_scan_append_plain(x, t2);
        assert((x + t).drop_last() =~= x + t2);
        assert((x + t).last() == t.last());
        assert(t[t.len() - 1] != '/');
        assert((scan(x).1 + t2).push(t.last()) =~= scan(x).1 + t);
    }
}

proof fn lemma_scan_append_sep(x: Seq<char>)
    ensures
        scan(x.push('/')) == (push_segment(scan(x).0, scan(x).1), Seq::<char>::empty()),
{
    assert(x.push('/').drop_last() =~= x);
}

/// Facts about rendering a normal form: how the text starts, how the scan of
/// it ends, and that the text does not end with `/` when a normal component
/// was rendered last.
proof fn lemma_render_scan(ns: Seq<CompView>)
    requires
        is_normal_form(ns),
    ensures
        ({
            let r = render(ns);
            let normals = if ns.len() > 0 && ns[0] is RootDir {
                ns.drop_first()
            } else {
                ns
            };
            &&& ns.len() > 0 ==> r.len() >= comp_text(ns[0]).len() && r.subrange(
                0,
                comp_text(ns[0]).len() as int,
            ) == comp_text(ns[0])
            &&& normals.len() == 0 ==> scan(r).0 == Seq::<CompView>::empty() && scan(r).1
                == Seq::<char>::empty()
            &&& normals.len() == 0 ==> (r.len() == 0 || r == seq!['/'])
            &&& normals.len() > 0 ==> scan(r).0 == normals.drop_last() && scan(r).1 == comp_text(
                normals.last(),
            ) && r.len() > 0 && r.last() != '/'
        }),
    decreases ns.len(),
{
    let r = render(ns);
    if ns.len() == 0 {
    } else {
        let prev = ns.drop_last();
        assert forall|i: int| 0 <= i < prev.len() implies match #[trigger] prev[i] {
            CompView::RootDir => i == 0,
            CompView::CurDir => false,
            CompView::ParentDir => false,
            CompView::Normal(s) => valid_segment(s),
        } by {
            assert(prev[i] == ns[i]);
        }
        lemma_render_scan(prev);
        let pr = render(prev);
        let c = ns.last();
        assert(match ns[ns.len() - 1] {
            CompView::RootDir => ns.len() - 1 == 0,
            CompView::CurDir => false,
            CompView::ParentDir => false,
            CompView::Normal(s) => valid_segment(s),
        });
        if c is RootDir {
            assert(prev.len() == 0);
            assert(r == seq!['/']);
            assert(seq!['/'] =~= Seq::<char>::empty().push('/'));
            lemma_scan_append_sep(Seq::<char>::empty());
            assert(ns.drop_first() =~= Seq::<CompView>::empty());
            assert(r.subrange(0, 1) =~= seq!['/']);
        } else {
            let seg = c->Normal_0;
            assert(valid_segment(seg));
            let prev_normals = if prev.len() > 0 && prev[0] is RootDir {
                prev.drop_first()
            } else {
                prev
            };
            let normals = if ns.len() > 0 && ns[0] is RootDir {
                ns.drop_first()
            } else {
                ns
            };
            if prev.len() > 0 {
                assert(prev[0] == ns[0]);
            }
            assert(normals =~= prev_normals.push(c));
            if prev_normals.len() == 0 {
                // buffer is "" or "/": the segment is appended directly
                if pr.len() == 0 {
                    assert(r =~= seg);
                    assert(pr =~= Seq::<char>::empty());
                    lemma_scan_append_plain(pr, seg);
                    assert(pr + seg =~= seg);
                } else {
                    assert(pr == seq!['/']);
                    assert(r =~= pr + seg);
                    lemma_scan_append_plain(pr, seg);
                    assert(scan(pr).1 + seg =~= seg);
                    assert(r.subrange(0, 1) =~= pr.subrange(0, 1));
                }
                assert(r.last() == seg.last());
                assert(seg.contains(seg.last()));
            } else {
                // buffer ends with a normal component: a separator is added
                let sep_buf = pr.push('/');
                assert(r =~= sep_buf + seg);
                lemma_scan_append_sep(pr);
                lemma_scan_append_plain(sep_buf, seg);
                assert(Seq::<char>::empty() + seg =~= seg);
                let last_prev = prev_normals.last();
                assert(prev_normals[prev_normals.len() - 1] == last_prev);
                assert(last_prev is Normal);
                let lseg = last_prev->Normal_0;
                assert(valid_segment(lseg)) by {
                    let k = if prev.len() > 0 && prev[0] is RootDir {
                        prev.len() - 1
                    } else {
                        prev.len() - 1
                    };
                    assert(prev[k] == last_prev);
                }
                assert(push_segment(prev_normals.drop_last(), lseg) =~= prev_normals);
                assert(normals.drop_last() =~= prev_normals);
                assert(r.last() == seg.last());
                assert(seg.contains(seg.last()));
                assert(r.subrange(0, comp_text(ns[0]).len() as int) =~= pr.subrange(
                    0,
                    comp_text(ns[0]).len() as int,
                ));
            }
        }
    }
}

/// Parsing the rendering of a normal form gives it back.
pub proof fn lemma_render_roundtrip(ns: Seq<CompView>)
    requires
        is_normal_form(ns),
    ensures
        path_components(render(ns)) == ns,
{
    lemma_render_scan(ns);
    let r = render(ns);
    if ns.len() == 0 {
        assert(body_components(r) =~= Seq::<CompView>::empty());
    } else if ns[0] is RootDir {
        assert(r.subrange(0, 1) == seq!['/']);
        assert(r.subrange(0, 1)[0] == r[0]);
        assert(has_root(r));
        let normals = ns.drop_first();
        if normals.len() == 0 {
            assert(ns =~= seq![CompView::RootDir]);
        } else {
            let lseg = normals.last()->Normal_0;
            assert(normals[normals.len() - 1] == ns[ns.len() - 1]);
            assert(valid_segment(lseg));
            assert(push_segment(normals.drop_last(), lseg) =~= normals);
            assert(seq![CompView::RootDir] + normals =~= ns);
        }
    } else {
        let n1 = ns[0]->Normal_0;
        assert(valid_segment(n1));
        assert(r.subrange(0, n1.len() as int) == n1);
        assert(r[0] == n1[0]);
        assert(n1.contains(n1[0]));
        assert(!has_root(r));
        if r[0] == '.' && (r.len() == 1 || r[1] == '/') {
            if n1.len() == 1 {
                assert(n1 =~= seq!['.']);
            } else {
                assert(r[1] == n1[1]);
                assert(n1.contains(n1[1]));
            }
        }
        assert(!has_leading_cur_dir(r));
        let lseg = ns.last()->Normal_0;
        assert(valid_segment(lseg));
        assert(push_segment(ns.drop_last(), lseg) =~= ns);
    }
}

/// Normalizing a path twice is the same as normalizing it once.
pub proof fn law_normalize_idempotent(s: Seq<char>)
    ensures
        normalize_path(normalize_path(s)) == normalize_path(s),
{
    lemma_path_components_wf(s);
    let ns = normalize_components(path_components(s));
    lemma_normalize_normal_form(path_components(s));
    lemma_render_roundtrip(ns);
    lemma_normalize_fixed(ns);
}

/// A normalized path holds no `.` or `..` component when it is read again.
pub proof fn law_normalized_has_no_dot_components(s: Seq<char>)
    ensures
        has_no_dot_components(path_components(normalize_path(s))),
{
    lemma_path_components_wf(s);
    let ns = normalize_components(path_components(s));
    lemma_normalize_normal_form(path_components(s));
    lemma_render_roundtrip(ns);
    assert forall|i: int| 0 <= i < ns.len() implies !(#[trigger] ns[i] is CurDir) && !(
    ns[i] is ParentDir) by {
        assert(match ns[i] {
            CompView::RootDir => i == 0,
            CompView::CurDir => false,
            CompView::ParentDir => false,
            CompView::Normal(s) => valid_segment(s),
        });
    }
}


proof fn lemma_normalize_keeps_first_root(cs: Seq<CompView>)
    requires
        cs.len() > 0,
        cs[0] is RootDir,
    ensures
        normalize_components(cs).len() > 0,
        normalize_components(cs)[0] is RootDir,
    decreases cs.len(),
{
    let prev = cs.drop_last();
    let out = normalize_components(prev);
    let r = norm_step(out, cs.last());
    assert(normalize_components(cs) == r);
    if cs.len() == 1 {
        assert(prev.len() == 0);
        assert(out.len() == 0);
        assert(cs.last() == cs[0]);
        assert(r =~= seq![CompView::RootDir]);
    } else {
        assert(prev[0] == cs[0]);
        lemma_normalize_keeps_first_root(prev);
        match cs.last() {
            CompView::CurDir => {
                assert(r == out);
            },
            CompView::ParentDir => {
                if out.len() > 0 && out.last() is Normal {
                    assert(out.len() > 1);
                    assert(r[0] == out[0]);
                } else {
                    assert(r == out);
                }
            },
            _ => {
                assert(r == out.push(cs.last()));
                assert(r[0] == out[0]);
            },
        }
    }
}

/// An absolute path stays absolute when normalized.
pub proof fn lemma_normalized_keeps_root(s: Seq<char>)
    requires
        has_root(s),
    ensures
        has_root(normalize_path(s)),
{
    let pc = path_components(s);
    assert(pc[0] == CompView::RootDir);
    lemma_normalize_keeps_first_root(pc);
    lemma_path_components_wf(s);
    lemma_normalize_normal_form(pc);
    let ns = normalize_components(pc);
    lemma_render_scan(ns);
    let r = render(ns);
    assert(r.subrange(0, 1) == seq!['/']);
    assert(r.subrange(0, 1)[0] == r[0]);
}


// ---------------------------------------------------------------------------
// Executable functions
// ---------------------------------------------------------------------------
impl Component {
    /// A copy of this component.
    pub fn duplicate(&self) -> (r: Component)
        ensures
            r@ == self@,
    {
        match self {
            Component::RootDir => Component::RootDir,
            Component::CurDir => Component::CurDir,
            Component::ParentDir => Component::ParentDir,
            Component::Normal(s) => Component::Normal(s.clone()),
        }
    }

    /// Component equality.
    pub fn same_as(&self, other: &Component) -> (r: bool)
        ensures
            r == (self@ == other@),
    {
        match (self, other) {
            (Component::RootDir, Component::RootDir) => true,
            (Component::CurDir, Component::CurDir) => true,
            (Component::ParentDir, Component::ParentDir) => true,
            (Component::Normal(a), Component::Normal(b)) => a.eq(b),
            _ => false,
        }
    }
}

proof fn lemma_comps_view_push(v: Seq<Component>, c: Component)
    ensures
        comps_view(v.push(c)) == comps_view(v).push(c@),
{
    assert(comps_view(v.push(c)) =~= comps_view(v).push(c@));
}

proof fn lemma_push_segment_prefix(lead: Seq<CompView>, x: Seq<CompView>, seg: Seq<char>)
    ensures
        push_segment(lead + x, seg) == lead + push_segment(x, seg),
{
    assert((lead + x).push(CompView::ParentDir) =~= lead + x.push(CompView::ParentDir));
    assert((lead + x).push(CompView::Normal(seg)) =~= lead + x.push(CompView::Normal(seg)));
}

/// Appends the component that `s[start..end]` stands for, if any.
fn push_segment_exec(out: &mut Vec<Component>, s: &str, start: usize, end: usize)
    requires
        start <= end <= s@.len(),
    ensures
        comps_view(final(out)@) == push_segment(comps_view(old(out)@), s@.subrange(
            start as int,
            end as int,
        )),
{
    let ghost seg = s@.subrange(start as int, end as int);
    let len = end - start;
    if len == 0 {
        return;
    }
    let c0 = s.get_char(start);
    if len == 1 && c0 == '.' {
        assert(seg =~= seq!['.']);
        return;
    }
    if len == 2 && c0 == '.' && s.get_char(start + 1) == '.' {
        assert(seg =~= seq!['.', '.']);
        proof {
            lemma_comps_view_push(out@, Component::ParentDir);
        }
        out.push(Component::ParentDir);
        return;
    }
    assert(seg[0] == s@[start as int]);
    assert(seq!['.'].len() == 1 && seq!['.'][0] == '.');
    assert(seq!['.', '.'].len() == 2 && seq!['.', '.'][0] == '.' && seq!['.', '.'][1] == '.');
    assert(seg != seq!['.']) by {
        if seg == seq!['.'] {
            assert(seg[0] == '.');
        }
    }
    assert(seg != seq!['.', '.']) by {
        if seg == seq!['.', '.'] {
            assert(seg[1] == s@[start + 1]);
            assert(seg[0] == '.' && seg[1] == '.');
        }
    }
    let text = s.substring_char(start, end);
    let c = Component::Normal(text.to_owned());
    proof {
        lemma_comps_view_push(out@, c);
    }
    out.push(c);
}

/// The components of a path.
pub fn components(s: &str) -> (r: Vec<Component>)
    ensures
        comps_view(r@) == path_components(s@),
{
    let n = s.unicode_len();
    let mut out: Vec<Component> = Vec::new();
    if n > 0 && s.get_char(0) == '/' {
        out.push(Component::RootDir);
    } else if n > 0 && s.get_char(0) == '.' && (n == 1 || s.get_char(1) == '/') {
        out.push(Component::CurDir);
    }
    let ghost lead = comps_view(out@);
    assert(lead =~= path_components(s@).subrange(0, lead.len() as int)) by {
        assert(path_components(s@) == lead + body_components(s@));
    }
    assert(s@.take(0) =~= Seq::<char>::empty());
    assert(lead + scan(s@.take(0)).0 =~= lead);
    let mut start: usize = 0;
    let mut i: usize = 0;
    while i < n
        invariant
            n == s@.len(),
            start <= i <= n,
            comps_view(out@) == lead + scan(s@.take(i as int)).0,
            scan(s@.take(i as int)).1 == s@.subrange(start as int, i as int),
            path_components(s@) == lead + body_components(s@),
        decreases n - i,
    {
        let c = s.get_char(i);
        assert(s@.take(i + 1).drop_last() =~= s@.take(i as int));
        assert(s@.take(i + 1).last() == c);
        if c == '/' {
            let ghost before = scan(s@.take(i as int));
            push_segment_exec(&mut out, s, start, i);
            proof {
                lemma_push_segment_prefix(lead, before.0, before.1);
            }
            start = i + 1;
            assert(s@.subrange(start as int, (i + 1) as int) =~= Seq::<char>::empty());
        } else {
            assert(s@.subrange(start as int, i as int).push(c) =~= s@.subrange(
                start as int,
                (i + 1) as int,
            ));
        }
        i = i + 1;
    }
    assert(s@.take(n as int) =~= s@);
    let ghost before = scan(s@);
    push_segment_exec(&mut out, s, start, n);
    proof {
        lemma_push_segment_prefix(lead, before.0, before.1);
    }
    out
}

/// Collapses `.` and `..` components.
pub fn normalize_components_exec(cs: &Vec<Component>) -> (r: Vec<Component>)
    ensures
        comps_view(r@) == normalize_components(comps_view(cs@)),
{
    let mut out: Vec<Component> = Vec::new();
    let mut i: usize = 0;
    assert(comps_view(cs@).take(0) =~= Seq::<CompView>::empty());
    assert(comps_view(out@) =~= Seq::<CompView>::empty());
    while i < cs.len()
        invariant
            i <= cs.len(),
            comps_view(out@) == normalize_components(comps_view(cs@).take(i as int)),
        decreases cs.len() - i,
    {
        let ghost prev = comps_view(cs@).take(i as int);
        assert(comps_view(cs@).take(i + 1).drop_last() =~= prev);
        assert(comps_view(cs@).take(i + 1).last() == cs@[i as int]@);
        match &cs[i] {
            Component::CurDir => {},
            Component::ParentDir => {
                let l = out.len();
                if l > 0 {
                    let is_normal = match &out[l - 1] {
                        Component::Normal(_) => true,
                        _ => false,
                    };
                    if is_normal {
                        let ghost before = out@;
                        out.pop();
                        assert(comps_view(out@) =~= comps_view(before).drop_last());
                    }
                }
            },
            Component::RootDir => {
                proof {
                    lemma_comps_view_push(out@, Component::RootDir);
                }
                out.push(Component::RootDir);
            },
            Component::Normal(seg) => {
                let c = Component::Normal(seg.clone());
                proof {
                    lemma_comps_view_push(out@, c);
                }
                out.push(c);
            },
        }
        i = i + 1;
    }
    assert(comps_view(cs@).take(cs.len() as int) =~= comps_view(cs@));
    out
}

/// Writes components back as a path string.
pub fn render_components(cs: &Vec<Component>) -> (r: String)
    ensures
        r@ == render(comps_view(cs@)),
{
    let mut buf = String::new();
    let mut i: usize = 0;
    assert(comps_view(cs@).take(0) =~= Seq::<CompView>::empty());
    while i < cs.len()
        invariant
            i <= cs.len(),
            buf@ == render(comps_view(cs@).take(i as int)),
        decreases cs.len() - i,
    {
        let ghost prev = comps_view(cs@).take(i as int);
        assert(comps_view(cs@).take(i + 1).drop_last() =~= prev);
        assert(comps_view(cs@).take(i + 1).last() == cs@[i as int]@);
        proof {
            reveal_strlit("/");
            reveal_strlit(".");
            reveal_strlit("..");
        }
        match &cs[i] {
            Component::RootDir => {
                buf = "/".to_owned();
            },
            other => {
                let l = buf.as_str().unicode_len();
                if l > 0 && buf.as_str().get_char(l - 1) != '/' {
                    buf.append("/");
                }
                match other {
                    Component::CurDir => buf.append("."),
                    Component::ParentDir => buf.append(".."),
                    Component::Normal(seg) => buf.append(seg.as_str()),
                    Component::RootDir => {},
                }
            },
        }
        i = i + 1;
    }
    assert(comps_view(cs@).take(cs.len() as int) =~= comps_view(cs@));
    buf
}

/// Lexical normalization: collapses `.` and `..` without touching disk.
pub fn normalize(path: &str) -> (r: String)
    ensures
        r@ == normalize_path(path@),
        has_no_dot_components(path_components(r@)),
{
    let cs = components(path);
    let ns = normalize_components_exec(&cs);
    proof {
        law_normalized_has_no_dot_components(path@);
    }
    render_components(&ns)
}

/// True if `p` starts with `base`, component by component.
pub fn path_starts_with(p: &str, base: &str) -> (r: bool)
    ensures
        r == starts_with(p@, base@),
{
    let a = components(p);
    let b = components(base);
    if b.len() > a.len() {
        return false;
    }
    let mut i: usize = 0;
    while i < b.len()
        invariant
            b.len() <= a.len(),
            i <= b.len(),
            comps_view(a@) == path_components(p@),
            comps_view(b@) == path_components(base@),
            forall|j: int| 0 <= j < i ==> a@[j]@ == b@[j]@,
        decreases b.len() - i,
    {
        if !a[i].same_as(&b[i]) {
            let ghost ca = comps_view(a@);
            let ghost cb = comps_view(b@);
            assert(ca.len() == a@.len() && cb.len() == b@.len());
            assert(ca[i as int] != cb[i as int]);
            assert(ca.subrange(0, cb.len() as int)[i as int] == ca[i as int]);
            assert(ca.subrange(0, cb.len() as int) != cb);
            assert(comps_view(a@).subrange(0, b.len() as int)[i as int] == comps_view(a@)[i as int]);
            return false;
        }
        i = i + 1;
    }
    assert(comps_view(a@).subrange(0, b.len() as int) =~= comps_view(b@));
    true
}

/// Joins `p` onto `base`; an absolute `p` replaces `base`.
pub fn join(base: &str, p: &str) -> (r: String)
    ensures
        r@ == join_path(base@, p@),
{
    let pn = p.unicode_len();
    if pn > 0 && p.get_char(0) == '/' {
        return p.to_owned();
    }
    let mut out = base.to_owned();
    let bn = base.unicode_len();
    if bn > 0 && base.get_char(bn - 1) != '/' {
        proof {
            reveal_strlit("/");
        }
        out.append("/");
    }
    out.append(p);
    out
}

} // verus!
