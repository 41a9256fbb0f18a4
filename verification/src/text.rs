//! Character-level text helpers: whitespace trimming, `;`-separated lists,
//! decimal numbers, ASCII case folding and character truncation.

use vstd::prelude::*;

verus! {

/// Appends one character (`String::push`).
#[verifier::external_body]
pub(crate) fn push_char(s: &mut String, c: char)
    ensures
        final(s)@ == old(s)@.push(c),
{
    s.push(c)
}

/// The characters of `s`, in order.
pub fn to_chars(s: &str) -> (r: Vec<char>)
    ensures
        r@ == s@,
{
    let mut out: Vec<char> = Vec::new();
    for c in it: s.chars()
        invariant
            out@ == it.seq().take(it.index() as int),
    {
        out.push(c);
    }
    out
}

/// The string made of `cs[from..to]`.
pub fn string_from(cs: &Vec<char>, from: usize, to: usize) -> (r: String)
    requires
        from <= to <= cs@.len(),
    ensures
        r@ == cs@.subrange(from as int, to as int),
{
    let mut out = String::new();
    let mut i = from;
    while i < to
        invariant
            from <= i <= to <= cs@.len(),
            out@ == cs@.subrange(from as int, i as int),
        decreases to - i,
    {
        push_char(&mut out, cs[i]);
        assert(cs@.subrange(from as int, i as int).push(cs@[i as int]) =~= cs@.subrange(
            from as int,
            (i + 1) as int,
        ));
        i = i + 1;
    }
    out
}

/// Appends `cs[from..to]` to `out`.
pub fn append_chars(out: &mut String, cs: &Vec<char>, from: usize, to: usize)
    requires
        from <= to <= cs@.len(),
    ensures
        final(out)@ == old(out)@ + cs@.subrange(from as int, to as int),
{
    let mut i = from;
    while i < to
        invariant
            from <= i <= to <= cs@.len(),
            out@ == old(out)@ + cs@.subrange(from as int, i as int),
        decreases to - i,
    {
        push_char(out, cs[i]);
        assert(old(out)@ + cs@.subrange(from as int, i as int).push(cs@[i as int]) =~= old(out)@
            + cs@.subrange(from as int, (i + 1) as int));
        i = i + 1;
    }
}

/// Text equality.
pub fn text_eq(a: &str, b: &str) -> (r: bool)
    ensures
        r == (a@ == b@),
{
    let x = to_chars(a);
    let y = to_chars(b);
    chars_eq(&x, &y)
}

/// Equality of character vectors.
pub fn chars_eq(x: &Vec<char>, y: &Vec<char>) -> (r: bool)
    ensures
        r == (x@ == y@),
{
    if x.len() != y.len() {
        return false;
    }
    let mut i: usize = 0;
    while i < x.len()
        invariant
            x@.len() == y@.len(),
            i <= x@.len(),
            forall|j: int| 0 <= j < i ==> x@[j] == y@[j],
        decreases x.len() - i,
    {
        if x[i] != y[i] {
            return false;
        }
        i = i + 1;
    }
    assert(x@ =~= y@);
    true
}

// ---------------------------------------------------------------------------
// Whitespace
// ---------------------------------------------------------------------------
/// The Unicode `White_Space` property.
pub open spec fn is_white_space(c: char) -> bool {
    let v = c as u32;
    ||| (9 <= v && v <= 13)
    ||| v == 0x20
    ||| v == 0x85
    ||| v == 0xa0
    ||| v == 0x1680
    ||| (0x2000 <= v && v <= 0x200a)
    ||| v == 0x2028
    ||| v == 0x2029
    ||| v == 0x202f
    ||| v == 0x205f
    ||| v == 0x3000
}

/// Whether `c` has the Unicode `White_Space` property.
pub fn is_whitespace(c: char) -> (r: bool)
    ensures
        r == is_white_space(c),
{
    let v = c as u32;
    (9 <= v && v <= 13) || v == 0x20 || v == 0x85 || v == 0xa0 || v == 0x1680 || (0x2000 <= v && v
        <= 0x200a) || v == 0x2028 || v == 0x2029 || v == 0x202f || v == 0x205f || v == 0x3000
}

pub open spec fn all_white_space(s: Seq<char>) -> bool {
    forall|i: int| 0 <= i < s.len() ==> is_white_space(#[trigger] s[i])
}

pub open spec fn trim_front(s: Seq<char>) -> Seq<char>
    decreases s.len(),
{
    if s.len() > 0 && is_white_space(s[0]) {
        trim_front(s.drop_first())
    } else {
        s
    }
}

pub open spec fn trim_back(s: Seq<char>) -> Seq<char>
    decreases s.len(),
{
    if s.len() > 0 && is_white_space(s.last()) {
        trim_back(s.drop_last())
    } else {
        s
    }
}

/// `s` without leading and trailing whitespace.
pub open spec fn trim(s: Seq<char>) -> Seq<char> {
    trim_back(trim_front(s))
}

proof fn lemma_trim_front_empty_iff(s: Seq<char>)
    ensures
        (trim_front(s).len() == 0) == all_white_space(s),
    decreases s.len(),
{
    if s.len() > 0 && is_white_space(s[0]) {
        lemma_trim_front_empty_iff(s.drop_first());
        if all_white_space(s.drop_first()) {
            assert forall|i: int| 0 <= i < s.len() implies is_white_space(#[trigger] s[i]) by {
                if i > 0 {
                    assert(s[i] == s.drop_first()[i - 1]);
                }
            }
        } else {
            let k = choose|k: int| 0 <= k < s.drop_first().len() && !is_white_space(#[trigger] s.drop_first()[k]);
            assert(s[k + 1] == s.drop_first()[k]);
        }
    } else if s.len() > 0 {
        assert(!is_white_space(s[0]));
    }
}

proof fn lemma_trim_back_empty(s: Seq<char>)
    ensures
        (trim_back(s).len() == 0) == (s.len() == 0 || all_white_space(s)),
    decreases s.len(),
{
    if s.len() > 0 && is_white_space(s.last()) {
        lemma_trim_back_empty(s.drop_last());
        if all_white_space(s.drop_last()) {
            assert forall|i: int| 0 <= i < s.len() implies is_white_space(#[trigger] s[i]) by {
                if i < s.len() - 1 {
                    assert(s[i] == s.drop_last()[i]);
                }
            }
        } else {
            let k = choose|k: int| 0 <= k < s.drop_last().len() && !is_white_space(#[trigger] s.drop_last()[k]);
            assert(s[k] == s.drop_last()[k]);
        }
    } else if s.len() > 0 {
        assert(!is_white_space(s[s.len() - 1]));
    }
}

/// A trimmed text is empty exactly when every character is whitespace.
pub proof fn lemma_trim_empty_iff(s: Seq<char>)
    ensures
        (trim(s).len() == 0) == all_white_space(s),
{
    lemma_trim_front_empty_iff(s);
    lemma_trim_back_empty(trim_front(s));
    if trim_front(s).len() > 0 {
        let t = trim_front(s);
        lemma_trim_front_shape(s);
        if all_white_space(t) {
            assert(is_white_space(t[0]));
        }
    }
}

proof fn lemma_trim_front_shape(s: Seq<char>)
    ensures
        trim_front(s).len() > 0 ==> !is_white_space(trim_front(s)[0]),
    decreases s.len(),
{
    if s.len() > 0 && is_white_space(s[0]) {
        lemma_trim_front_shape(s.drop_first());
    }
}

/// Bounds of the trimmed part of `cs`.
pub fn trim_bounds(cs: &Vec<char>) -> (r: (usize, usize))
    ensures
        r.0 <= r.1 <= cs@.len(),
        cs@.subrange(r.0 as int, r.1 as int) == trim(cs@),
{
    let n = cs.len();
    let mut i: usize = 0;
    assert(cs@.subrange(0, n as int) =~= cs@);
    while i < n && is_whitespace(cs[i])
        invariant
            n == cs@.len(),
            i <= n,
            trim_front(cs@.subrange(i as int, n as int)) == trim_front(cs@),
        decreases n - i,
    {
        assert(cs@.subrange(i as int, n as int).drop_first() =~= cs@.subrange(
            (i + 1) as int,
            n as int,
        ));
        i = i + 1;
    }
    assert(trim_front(cs@) == cs@.subrange(i as int, n as int));
    let mut j: usize = n;
    while j > i && is_whitespace(cs[j - 1])
        invariant
            n == cs@.len(),
            i <= j <= n,
            trim_back(cs@.subrange(i as int, j as int)) == trim(cs@),
        decreases j - i,
    {
        assert(cs@.subrange(i as int, j as int).drop_last() =~= cs@.subrange(
            i as int,
            (j - 1) as int,
        ));
        j = j - 1;
    }
    (i, j)
}

/// True if every character of `s` is whitespace (so that trimming leaves
/// nothing).
pub fn is_blank(s: &str) -> (r: bool)
    ensures
        r == all_white_space(s@),
        r == (trim(s@).len() == 0),
{
    proof {
        lemma_trim_empty_iff(s@);
    }
    let cs = to_chars(s);
    let mut i: usize = 0;
    while i < cs.len()
        invariant
            cs@ == s@,
            i <= cs@.len(),
            (trim(s@).len() == 0) == all_white_space(s@),
            forall|j: int| 0 <= j < i ==> is_white_space(#[trigger] cs@[j]),
        decreases cs.len() - i,
    {
        if !is_whitespace(cs[i]) {
            assert(!is_white_space(cs@[i as int]));
            return false;
        }
        i = i + 1;
    }
    true
}

// ---------------------------------------------------------------------------
// `;`-separated lists
// ---------------------------------------------------------------------------
/// Adds a finished piece of a list, trimmed, unless it is blank.
pub open spec fn keep_piece(acc: Seq<Seq<char>>, piece: Seq<char>) -> Seq<Seq<char>> {
    if trim(piece).len() > 0 {
        acc.push(trim(piece))
    } else {
        acc
    }
}

pub open spec fn list_scan(s: Seq<char>, sep: char) -> (Seq<Seq<char>>, Seq<char>)
    decreases s.len(),
{
    if s.len() == 0 {
        (Seq::empty(), Seq::empty())
    } else {
        let p = list_scan(s.drop_last(), sep);
        if s.last() == sep {
            (keep_piece(p.0, p.1), Seq::empty())
        } else {
            (p.0, p.1.push(s.last()))
        }
    }
}

/// The pieces of `s` between `sep` characters, trimmed, blank ones dropped.
pub open spec fn split_list(s: Seq<char>, sep: char) -> Seq<Seq<char>> {
    keep_piece(list_scan(s, sep).0, list_scan(s, sep).1)
}

proof fn lemma_trim_front_skip_shape(s: Seq<char>)
    ensures
        exists|k: int| 0 <= k <= s.len() && trim_front(s) == s.skip(k),
        trim_front(s).len() > 0 ==> !is_white_space(trim_front(s)[0]),
    decreases s.len(),
{
    if s.len() > 0 && is_white_space(s[0]) {
        lemma_trim_front_skip_shape(s.drop_first());
        let k = choose|k: int| 0 <= k <= s.drop_first().len() && trim_front(s.drop_first())
            == s.drop_first().skip(k);
        assert(s.drop_first().skip(k) =~= s.skip(k + 1));
    } else {
        assert(s.skip(0) =~= s);
    }
}

proof fn lemma_trim_back_take_shape(s: Seq<char>)
    ensures
        exists|m: int| 0 <= m <= s.len() && trim_back(s) == s.take(m),
        trim_back(s).len() > 0 ==> !is_white_space(trim_back(s).last()),
    decreases s.len(),
{
    if s.len() > 0 && is_white_space(s.last()) {
        lemma_trim_back_take_shape(s.drop_last());
        let m = choose|m: int| 0 <= m <= s.drop_last().len() && trim_back(s.drop_last())
            == s.drop_last().take(m);
        assert(s.drop_last().take(m) =~= s.take(m));
    } else {
        assert(s.take(s.len() as int) =~= s);
    }
}

/// A trimmed text is a piece of the text that neither starts nor ends with
/// whitespace.
pub proof fn law_trim_result(s: Seq<char>)
    ensures
        exists|i: int, j: int| 0 <= i <= j <= s.len() && trim(s) == s.subrange(i, j),
        trim(s).len() > 0 ==> !is_white_space(trim(s)[0]) && !is_white_space(trim(s).last()),
{
    lemma_trim_front_skip_shape(s);
    let f = trim_front(s);
    let k = choose|k: int| 0 <= k <= s.len() && f == s.skip(k);
    lemma_trim_back_take_shape(f);
    let m = choose|m: int| 0 <= m <= f.len() && trim_back(f) == f.take(m);
    assert(f.take(m) =~= s.subrange(k, k + m));
    if trim(s).len() > 0 {
        assert(trim(s)[0] == f[0]);
    }
}

proof fn lemma_list_scan_pieces(s: Seq<char>, sep: char)
    ensures
        !list_scan(s, sep).1.contains(sep),
        forall|i: int|
            0 <= i < list_scan(s, sep).0.len() ==> {
                let x = #[trigger] list_scan(s, sep).0[i];
                x.len() > 0 && !x.contains(sep) && !is_white_space(x[0]) && !is_white_space(
                    x.last(),
                )
            },
    decreases s.len(),
{
    if s.len() > 0 {
        lemma_list_scan_pieces(s.drop_last(), sep);
        let p = list_scan(s.drop_last(), sep);
        if s.last() == sep {
            law_trim_result(p.1);
            let t = trim(p.1);
            if t.len() > 0 {
                let (i, j) = choose|i: int, j: int| 0 <= i <= j <= p.1.len() && t == p.1.subrange(i, j);
                assert(!t.contains(sep)) by {
                    if t.contains(sep) {
                        let q = choose|q: int| 0 <= q < t.len() && t[q] == sep;
                        assert(p.1[i + q] == sep);
                    }
                }
                assert forall|i2: int| 0 <= i2 < p.0.push(t).len() implies {
                    let x = #[trigger] p.0.push(t)[i2];
                    x.len() > 0 && !x.contains(sep) && !is_white_space(x[0]) && !is_white_space(
                        x.last(),
                    )
                } by {
                    if i2 < p.0.len() {
                        assert(p.0.push(t)[i2] == p.0[i2]);
                    }
                }
            }
        } else {
            let cur = p.1.push(s.last());
            assert(!cur.contains(sep)) by {
                if cur.contains(sep) {
                    let q = choose|q: int| 0 <= q < cur.len() && cur[q] == sep;
                    if q < p.1.len() {
                        assert(p.1[q] == cur[q]);
                    }
                }
            }
        }
    }
}

/// Every item of a separated list is non-empty, holds no separator and
/// neither starts nor ends with whitespace: blank items are dropped and
/// the others trimmed.
pub proof fn law_list_items_are_trimmed(s: Seq<char>, sep: char)
    ensures
        forall|i: int|
            0 <= i < split_list(s, sep).len() ==> {
                let x = #[trigger] split_list(s, sep)[i];
                x.len() > 0 && !x.contains(sep) && !is_white_space(x[0]) && !is_white_space(
                    x.last(),
                )
            },
{
    lemma_list_scan_pieces(s, sep);
    let p = list_scan(s, sep);
    law_trim_result(p.1);
    let t = trim(p.1);
    if t.len() > 0 {
        let (i, j) = choose|i: int, j: int| 0 <= i <= j <= p.1.len() && t == p.1.subrange(i, j);
        assert(!t.contains(sep)) by {
            if t.contains(sep) {
                let q = choose|q: int| 0 <= q < t.len() && t[q] == sep;
                assert(p.1[i + q] == sep);
            }
        }
        assert forall|i2: int| 0 <= i2 < split_list(s, sep).len() implies {
            let x = #[trigger] split_list(s, sep)[i2];
            x.len() > 0 && !x.contains(sep) && !is_white_space(x[0]) && !is_white_space(x.last())
        } by {
            if i2 < p.0.len() {
                assert(p.0.push(t)[i2] == p.0[i2]);
            }
        }
    }
}

pub open spec fn strings_view(v: Seq<String>) -> Seq<Seq<char>> {
    v.map_values(|s: String| s@)
}

proof fn lemma_strings_view_push(v: Seq<String>, s: String)
    ensures
        strings_view(v.push(s)) == strings_view(v).push(s@),
{
    assert(strings_view(v.push(s)) =~= strings_view(v).push(s@));
}

fn keep_piece_exec(acc: &mut Vec<String>, cs: &Vec<char>, from: usize, to: usize)
    requires
        from <= to <= cs@.len(),
    ensures
        strings_view(final(acc)@) == keep_piece(strings_view(old(acc)@), cs@.subrange(
            from as int,
            to as int,
        )),
{
    let piece = string_from(cs, from, to);
    let pcs = to_chars(piece.as_str());
    let (a, b) = trim_bounds(&pcs);
    if a < b {
        let t = string_from(&pcs, a, b);
        proof {
            lemma_strings_view_push(acc@, t);
        }
        acc.push(t);
    }
}

/// Splits `s` at every `sep`, trims each piece and drops blank pieces.
pub fn split_trimmed(s: &str, sep: char) -> (r: Vec<String>)
    ensures
        strings_view(r@) == split_list(s@, sep),
{
    let cs = to_chars(s);
    let n = cs.len();
    let mut out: Vec<String> = Vec::new();
    let mut start: usize = 0;
    let mut i: usize = 0;
    assert(cs@.take(0) =~= Seq::<char>::empty());
    assert(strings_view(out@) =~= Seq::<Seq<char>>::empty());
    while i < n
        invariant
            n == cs@.len(),
            cs@ == s@,
            start <= i <= n,
            strings_view(out@) == list_scan(cs@.take(i as int), sep).0,
            list_scan(cs@.take(i as int), sep).1 == cs@.subrange(start as int, i as int),
        decreases n - i,
    {
        let c = cs[i];
        assert(cs@.take(i + 1).drop_last() =~= cs@.take(i as int));
        assert(cs@.take(i + 1).last() == c);
        if c == sep {
            keep_piece_exec(&mut out, &cs, start, i);
            start = i + 1;
            assert(cs@.subrange(start as int, (i + 1) as int) =~= Seq::<char>::empty());
        } else {
            assert(cs@.subrange(start as int, i as int).push(c) =~= cs@.subrange(
                start as int,
                (i + 1) as int,
            ));
        }
        i = i + 1;
    }
    assert(cs@.take(n as int) =~= cs@);
    keep_piece_exec(&mut out, &cs, start, n);
    out
}

// ---------------------------------------------------------------------------
// ASCII case
// ---------------------------------------------------------------------------
/// Among ASCII characters, exactly tab, line feed, vertical tab, form feed,
/// carriage return and space are whitespace.
pub proof fn law_ascii_whitespace(c: char)
    ensures
        (c as u32) < 128 ==> (is_white_space(c) <==> ((9 <= (c as u32) && (c as u32) <= 13) || (c as u32)
            == 32)),
{
}

proof fn lemma_trim_front_skips(pre: Seq<char>, rest: Seq<char>)
    requires
        all_white_space(pre),
        rest.len() > 0,
        !is_white_space(rest[0]),
    ensures
        trim_front(pre + rest) == rest,
    decreases pre.len(),
{
    if pre.len() == 0 {
        assert(pre + rest =~= rest);
    } else {
        assert((pre + rest)[0] == pre[0]);
        assert((pre + rest).drop_first() =~= pre.drop_first() + rest);
        assert forall|i: int| 0 <= i < pre.drop_first().len() implies is_white_space(
            #[trigger] pre.drop_first()[i],
        ) by {
            assert(pre.drop_first()[i] == pre[i + 1]);
        }
        lemma_trim_front_skips(pre.drop_first(), rest);
    }
}

proof fn lemma_trim_back_skips(core: Seq<char>, post: Seq<char>)
    requires
        all_white_space(post),
        core.len() > 0,
        !is_white_space(core.last()),
    ensures
        trim_back(core + post) == core,
    decreases post.len(),
{
    if post.len() == 0 {
        assert(core + post =~= core);
    } else {
        assert((core + post).last() == post.last());
        assert((core + post).drop_last() =~= core + post.drop_last());
        assert forall|i: int| 0 <= i < post.drop_last().len() implies is_white_space(
            #[trigger] post.drop_last()[i],
        ) by {
            assert(post.drop_last()[i] == post[i]);
        }
        lemma_trim_back_skips(core, post.drop_last());
    }
}

/// Trimming removes exactly the whitespace around a text: a text that
/// neither starts nor ends with whitespace comes back whole from any
/// whitespace around it.
pub proof fn law_trim_strips_surrounding(pre: Seq<char>, core: Seq<char>, post: Seq<char>)
    requires
        all_white_space(pre),
        all_white_space(post),
        core.len() > 0,
        !is_white_space(core[0]),
        !is_white_space(core.last()),
    ensures
        trim(pre + core + post) == core,
{
    assert(pre + core + post =~= pre + (core + post));
    assert((core + post)[0] == core[0]);
    lemma_trim_front_skips(pre, core + post);
    lemma_trim_back_skips(core, post);
}

/// Lowering keeps the length, turns each ASCII capital into its small
/// letter and leaves every other character as it is.
pub proof fn law_ascii_lower(s: Seq<char>)
    ensures
        ascii_lower(s).len() == s.len(),
        forall|i: int|
            0 <= i < s.len() ==> ('A' <= s[i] && s[i] <= 'Z' ==> (#[trigger] ascii_lower(s)[i]) as u32
                == (s[i] as u32) + 32) && (!('A' <= s[i] && s[i] <= 'Z') ==> ascii_lower(s)[i]
                == s[i]),
{
    assert forall|i: int| 0 <= i < s.len() implies ('A' <= s[i] && s[i] <= 'Z' ==> (
    #[trigger] ascii_lower(s)[i]) as u32 == (s[i] as u32) + 32) && (!('A' <= s[i] && s[i] <= 'Z')
        ==> ascii_lower(s)[i] == s[i]) by {
        let c = s[i];
        if 'A' <= c && c <= 'Z' {
            let u = c as u8;
            assert(u as int == c as int);
            let v = (u + 32) as u8;
            assert(v as int == c as int + 32);
            assert((v as char) as u32 == v as u32);
        }
    }
}

pub open spec fn ascii_lower_char(c: char) -> char {
    if 'A' <= c && c <= 'Z' {
        (((c as u8) + 32) as u8) as char
    } else {
        c
    }
}

/// `s` with ASCII upper-case letters lowered (`to_ascii_lowercase`).
pub open spec fn ascii_lower(s: Seq<char>) -> Seq<char> {
    s.map_values(|c: char| ascii_lower_char(c))
}

/// True if `s`, with ASCII letters lowered, equals `word`.
pub fn lower_equals(s: &Vec<char>, word: &str) -> (r: bool)
    ensures
        r == (ascii_lower(s@) == word@),
{
    let w = to_chars(word);
    if s.len() != w.len() {
        assert(ascii_lower(s@).len() == s@.len());
        return false;
    }
    let mut i: usize = 0;
    while i < s.len()
        invariant
            s@.len() == w@.len(),
            w@ == word@,
            i <= s@.len(),
            forall|j: int| 0 <= j < i ==> ascii_lower_char(s@[j]) == w@[j],
        decreases s.len() - i,
    {
        let c = s[i];
        let lc: char = if 'A' <= c && c <= 'Z' {
            ((c as u8) + 32) as char
        } else {
            c
        };
        if lc != w[i] {
            assert(ascii_lower(s@)[i as int] == ascii_lower_char(c));
            assert(ascii_lower(s@)[i as int] != w@[i as int]);
            return false;
        }
        assert(ascii_lower_char(c) == w@[i as int]);
        i = i + 1;
    }
    assert(ascii_lower(s@) =~= w@);
    true
}

// ---------------------------------------------------------------------------
// Decimal numbers
// ---------------------------------------------------------------------------
pub open spec fn digit_char(d: nat) -> char {
    ((d + 48) as u32) as char
}

/// Decimal digits of `n`, most significant first.
pub open spec fn decimal(n: nat) -> Seq<char>
    decreases n,
{
    if n < 10 {
        seq![digit_char(n)]
    } else {
        decimal(n / 10).push(digit_char(n % 10))
    }
}

/// Appends the decimal digits of `n` to `out`.
pub fn push_decimal(out: &mut String, n: usize)
    ensures
        final(out)@ == old(out)@ + decimal(n as nat),
    decreases n,
{
    if n >= 10 {
        push_decimal(out, n / 10);
    }
    let d: u8 = (n % 10) as u8;
    let ch: char = (d + 48) as char;
    assert(ch == digit_char((n % 10) as nat));
    push_char(out, ch);
    if n >= 10 {
        assert(old(out)@ + decimal((n / 10) as nat) + seq![digit_char((n % 10) as nat)] =~= old(
            out,
        )@ + decimal(n as nat));
    } else {
        assert(old(out)@.push(digit_char(n as nat)) =~= old(out)@ + decimal(n as nat));
    }
}

pub open spec fn is_ascii_digit(c: char) -> bool {
    '0' <= c && c <= '9'
}

pub open spec fn digits_value(ds: Seq<char>) -> nat
    decreases ds.len(),
{
    if ds.len() == 0 {
        0
    } else {
        digits_value(ds.drop_last()) * 10 + ((ds.last() as u32) - 48) as nat
    }
}

/// Unsigned decimal syntax: an optional `+` followed by one or more ASCII
/// digits.
pub open spec fn parse_unsigned(s: Seq<char>) -> Option<nat> {
    parse_unsigned_digits(unsigned_digits(s))
}

/// The text after an optional leading `+`.
pub open spec fn unsigned_digits(s: Seq<char>) -> Seq<char> {
    if s.len() > 0 && s[0] == '+' {
        s.drop_first()
    } else {
        s
    }
}

proof fn lemma_digits_value_grows(ds: Seq<char>, k: int)
    requires
        0 <= k <= ds.len(),
        forall|i: int| 0 <= i < ds.len() ==> is_ascii_digit(#[trigger] ds[i]),
    ensures
        digits_value(ds.take(k)) <= digits_value(ds),
    decreases ds.len(),
{
    if k < ds.len() {
        let p = ds.drop_last();
        assert forall|i: int| 0 <= i < p.len() implies is_ascii_digit(#[trigger] p[i]) by {
            assert(p[i] == ds[i]);
        }
        lemma_digits_value_grows(p, k);
        assert(p.take(k) =~= ds.take(k));
        assert(is_ascii_digit(ds[ds.len() - 1]));
        assert(digits_value(p) * 10 >= digits_value(p)) by (nonlinear_arith);
    } else {
        assert(ds.take(k) =~= ds);
    }
}

proof fn lemma_decimal_digits(n: nat)
    ensures
        decimal(n).len() > 0,
        forall|i: int| 0 <= i < decimal(n).len() ==> is_ascii_digit(#[trigger] decimal(n)[i]),
        digits_value(decimal(n)) == n,
    decreases n,
{
    if n < 10 {
        let d = decimal(n);
        assert(d.drop_last() =~= Seq::<char>::empty());
        assert((digit_char(n) as u32) == n + 48);
        assert(d.last() == digit_char(n));
        assert(digits_value(d) == digits_value(d.drop_last()) * 10 + n);
    } else {
        lemma_decimal_digits(n / 10);
        let d = decimal(n);
        assert(d.drop_last() =~= decimal(n / 10));
        assert((digit_char(n % 10) as u32) == n % 10 + 48);
        assert(d.last() == digit_char(n % 10));
        assert((n / 10) * 10 + n % 10 == n) by (nonlinear_arith);
        assert(digits_value(d) == digits_value(decimal(n / 10)) * 10 + n % 10);
        assert forall|i: int| 0 <= i < d.len() implies is_ascii_digit(#[trigger] d[i]) by {
            if i < d.len() - 1 {
                assert(d[i] == decimal(n / 10)[i]);
            }
        }
    }
}

/// Reading back the decimal digits of a number gives the number: what
/// `push_decimal` writes, `parse_unsigned` reads.
pub proof fn law_decimal_reads_back(n: nat)
    ensures
        parse_unsigned(decimal(n)) == Some(n),
{
    lemma_decimal_digits(n);
    let d = decimal(n);
    assert(is_ascii_digit(d[0]));
    assert(unsigned_digits(d) == d);
}

/// Parses an unsigned decimal number that fits in `usize` (the syntax that
/// `str::parse::<usize>` accepts).
pub fn parse_usize(s: &str) -> (r: Option<usize>)
    ensures
        match r {
            Some(n) => parse_unsigned(s@) == Some(n as nat),
            None => parse_unsigned(s@) is None || parse_unsigned(s@)->0 > usize::MAX,
        },
{
    let cs = to_chars(s);
    let start: usize = if cs.len() > 0 && cs[0] == '+' {
        1
    } else {
        0
    };
    let ghost ds = unsigned_digits(s@);
    assert(ds =~= cs@.subrange(start as int, cs@.len() as int));
    assert(parse_unsigned(s@) == parse_unsigned_digits(ds));
    if start >= cs.len() {
        return None;
    }
    let mut value: usize = 0;
    let mut i: usize = start;
    while i < cs.len()
        invariant
            cs@ == s@,
            start <= i <= cs@.len(),
            ds == cs@.subrange(start as int, cs@.len() as int),
            parse_unsigned(s@) == parse_unsigned_digits(ds),
            forall|j: int| start <= j < i ==> is_ascii_digit(#[trigger] cs@[j]),
            value as nat == digits_value(cs@.subrange(start as int, i as int)),
        decreases cs.len() - i,
    {
        let c = cs[i];
        let ghost prefix = cs@.subrange(start as int, (i + 1) as int);
        assert(prefix.drop_last() =~= cs@.subrange(start as int, i as int));
        if !('0' <= c && c <= '9') {
            assert(!is_ascii_digit(ds[i - start]));
            return None;
        }
        let d = (c as u32 - 48) as usize;
        match value.checked_mul(10) {
            Some(v10) => match v10.checked_add(d) {
                Some(v) => {
                    value = v;
                },
                None => {
                    proof {
                        self::lemma_overflow_stays(cs@, start as int, i as int, ds);
                    }
                    return None;
                },
            },
            None => {
                proof {
                    assert(digits_value(prefix) >= digits_value(prefix.drop_last()) * 10);
                    self::lemma_overflow_stays(cs@, start as int, i as int, ds);
                }
                return None;
            },
        }
        i = i + 1;
    }
    assert(cs@.subrange(start as int, cs@.len() as int) =~= ds);
    Some(value)
}

proof fn lemma_overflow_stays(cs: Seq<char>, start: int, i: int, ds: Seq<char>)
    requires
        0 <= start <= i < cs.len(),
        ds == cs.subrange(start, cs.len() as int),
        forall|j: int| start <= j <= i ==> is_ascii_digit(#[trigger] cs[j]),
        digits_value(cs.subrange(start, i + 1)) > usize::MAX,
    ensures
        parse_unsigned_digits(ds) is None || parse_unsigned_digits(ds)->0 > usize::MAX,
{
    if forall|j: int| 0 <= j < ds.len() ==> is_ascii_digit(#[trigger] ds[j]) {
        lemma_digits_value_grows(ds, i + 1 - start);
        assert(ds.take(i + 1 - start) =~= cs.subrange(start, i + 1));
    }
}

pub open spec fn parse_unsigned_digits(ds: Seq<char>) -> Option<nat> {
    if ds.len() > 0 && forall|i: int| 0 <= i < ds.len() ==> is_ascii_digit(#[trigger] ds[i]) {
        Some(digits_value(ds))
    } else {
        None
    }
}

// ---------------------------------------------------------------------------
// Truncation
// ---------------------------------------------------------------------------
/// At most `n` characters of `s`; a longer text is cut to `n` characters and
/// marked with `…`.
pub open spec fn truncated(s: Seq<char>, n: nat) -> Seq<char> {
    if s.len() <= n {
        s
    } else {
        s.take(n as int).push('\u{2026}')
    }
}

/// Shortens `s` to at most `n` characters, appending `…` when it cut.
pub fn truncate(s: &str, n: usize) -> (r: String)
    ensures
        r@ == truncated(s@, n as nat),
{
    let cs = to_chars(s);
    if cs.len() <= n {
        return string_from(&cs, 0, cs.len());
    }
    let mut t = string_from(&cs, 0, n);
    push_char(&mut t, '\u{2026}');
    t
}

} // verus!
