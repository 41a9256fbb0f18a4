//! Plain-text search and replace over characters, with the semantics of
//! `str::matches`, `str::replace`, `str::replacen(.., 1)`, `str::find` and
//! `str::contains`: occurrences are found leftmost first and do not
//! overlap; the empty pattern occurs before every character and at the end.

use vstd::prelude::*;

use crate::text::{append_chars, push_char};

verus! {

/// `p` occurs in `t` at character index `i`.
pub open spec fn occurs_at(t: Seq<char>, p: Seq<char>, i: int) -> bool {
    0 <= i && i + p.len() <= t.len() && t.subrange(i, i + p.len()) == p
}

/// The number of non-overlapping occurrences of `p` in `t`, leftmost first.
pub open spec fn count_matches(t: Seq<char>, p: Seq<char>) -> nat
    decreases t.len(),
{
    if p.len() == 0 {
        (t.len() + 1) as nat
    } else if t.len() < p.len() {
        0
    } else if t.take(p.len() as int) == p {
        1 + count_matches(t.skip(p.len() as int), p)
    } else {
        count_matches(t.skip(1), p)
    }
}

/// `r` before every character of `t` and once more at the end.
pub open spec fn interleave(t: Seq<char>, r: Seq<char>) -> Seq<char>
    decreases t.len(),
{
    if t.len() == 0 {
        r
    } else {
        r + seq![t[0]] + interleave(t.skip(1), r)
    }
}

/// `t` with every non-overlapping occurrence of `p` replaced by `r`.
pub open spec fn replace_all(t: Seq<char>, p: Seq<char>, r: Seq<char>) -> Seq<char>
    decreases t.len(),
{
    if p.len() == 0 {
        interleave(t, r)
    } else if t.len() < p.len() {
        t
    } else if t.take(p.len() as int) == p {
        r + replace_all(t.skip(p.len() as int), p, r)
    } else {
        seq![t[0]] + replace_all(t.skip(1), p, r)
    }
}

/// The first index at or after `i` where `p` occurs.
pub open spec fn find_from(t: Seq<char>, p: Seq<char>, i: int) -> Option<int>
    decreases t.len() + 1 - i,
{
    if i < 0 || i + p.len() > t.len() {
        None
    } else if occurs_at(t, p, i) {
        Some(i)
    } else {
        find_from(t, p, i + 1)
    }
}

/// The first index where `p` occurs in `t`.
pub open spec fn find_first(t: Seq<char>, p: Seq<char>) -> Option<int> {
    find_from(t, p, 0)
}

/// `t` with its first occurrence of `p` replaced by `r`.
pub open spec fn replace_first(t: Seq<char>, p: Seq<char>, r: Seq<char>) -> Seq<char> {
    match find_first(t, p) {
        Some(i) => t.take(i) + r + t.skip(i + p.len()),
        None => t,
    }
}

/// `r` inserted into `t` at index `i`.
pub open spec fn insert_at(t: Seq<char>, i: int, r: Seq<char>) -> Seq<char> {
    t.take(i) + r + t.skip(i)
}

/// True if `p` occurs in `t` at index `i`.
pub fn matches_at(t: &Vec<char>, p: &Vec<char>, i: usize) -> (r: bool)
    ensures
        r == occurs_at(t@, p@, i as int),
{
    if i > t.len() || p.len() > t.len() - i {
        return false;
    }
    let mut k: usize = 0;
    while k < p.len()
        invariant
            i + p@.len() <= t.len(),
            t@.len() == t.len(),
            k <= p@.len(),
            forall|j: int| 0 <= j < k ==> t@[i + j] == p@[j],
        decreases p.len() - k,
    {
        if t[i + k] != p[k] {
            assert(t@.subrange(i as int, i + p@.len())[k as int] != p@[k as int]);
            return false;
        }
        k = k + 1;
    }
    assert(t@.subrange(i as int, i + p@.len()) =~= p@);
    true
}

proof fn lemma_find_from_leftmost(t: Seq<char>, p: Seq<char>, i: int)
    requires
        0 <= i,
    ensures
        find_from(t, p, i) matches Some(k) ==> i <= k && k + p.len() <= t.len() && t.subrange(
            k,
            k + p.len(),
        ) == p && forall|j: int| i <= j < k ==> #[trigger] t.subrange(j, j + p.len()) != p,
        find_from(t, p, i) is None ==> forall|j: int|
            i <= j && j + p.len() <= t.len() ==> #[trigger] t.subrange(j, j + p.len()) != p,
    decreases t.len() + 1 - i,
{
    if !(i + p.len() > t.len()) && !occurs_at(t, p, i) {
        lemma_find_from_leftmost(t, p, i + 1);
    }
}

/// `find_first` finds the leftmost occurrence: where it reports one, the
/// text there is the pattern and no earlier position holds it; where it
/// reports none, the pattern occurs nowhere.
pub proof fn law_find_first_is_leftmost(t: Seq<char>, p: Seq<char>)
    ensures
        find_first(t, p) matches Some(k) ==> 0 <= k && k + p.len() <= t.len() && t.subrange(
            k,
            k + p.len(),
        ) == p && forall|j: int| 0 <= j < k ==> #[trigger] t.subrange(j, j + p.len()) != p,
        find_first(t, p) is None ==> forall|j: int|
            0 <= j && j + p.len() <= t.len() ==> #[trigger] t.subrange(j, j + p.len()) != p,
{
    lemma_find_from_leftmost(t, p, 0);
}

proof fn lemma_no_occurrence_counts_zero(t: Seq<char>, p: Seq<char>)
    requires
        p.len() > 0,
        forall|j: int| 0 <= j && j + p.len() <= t.len() ==> #[trigger] t.subrange(j, j + p.len()) != p,
    ensures
        count_matches(t, p) == 0,
    decreases t.len(),
{
    if t.len() >= p.len() {
        assert(t.take(p.len() as int) =~= t.subrange(0, p.len() as int));
        let z: int = 0;
        assert(0 <= z && z + p.len() <= t.len());
        assert(t.subrange(z, z + p.len()) != p);
        assert(t.subrange(0, p.len() as int) =~= t.subrange(z, z + p.len()));
        let u = t.skip(1);
        assert forall|j: int| 0 <= j && j + p.len() <= u.len() implies #[trigger] u.subrange(j, j + p.len()) != p by {
            assert(u.subrange(j, j + p.len()) =~= t.subrange(j + 1, j + 1 + p.len()));
        }
        lemma_no_occurrence_counts_zero(u, p);
    }
}

/// A non-empty pattern that occurs nowhere is counted zero times.
pub proof fn law_absent_pattern_not_counted(t: Seq<char>, p: Seq<char>)
    requires
        p.len() > 0,
        find_first(t, p) is None,
    ensures
        count_matches(t, p) == 0,
{
    law_find_first_is_leftmost(t, p);
    lemma_no_occurrence_counts_zero(t, p);
}

proof fn lemma_skip_step(t: Seq<char>, i: int, m: int)
    requires
        0 <= i,
        0 <= m,
        i + m <= t.len(),
    ensures
        t.skip(i).take(m) == t.subrange(i, i + m),
        t.skip(i).skip(m) == t.skip(i + m),
        t.skip(i).len() == t.len() - i,
{
    assert(t.skip(i).take(m) =~= t.subrange(i, i + m));
    assert(t.skip(i).skip(m) =~= t.skip(i + m));
}

/// The number of non-overlapping occurrences of `p` in `t`.
pub fn count_occurrences(t: &Vec<char>, p: &Vec<char>) -> (r: usize)
    requires
        t@.len() < usize::MAX,
    ensures
        r == count_matches(t@, p@),
{
    let n = t.len();
    let m = p.len();
    if m == 0 {
        return n + 1;
    }
    let mut cnt: usize = 0;
    let mut i: usize = 0;
    assert(t@.skip(0) =~= t@);
    while i <= n && m <= n - i
        invariant
            n == t@.len(),
            m == p@.len(),
            m > 0,
            n < usize::MAX,
            cnt <= i,
            i <= n,
            count_matches(t@, p@) == cnt + count_matches(t@.skip(i as int), p@),
        decreases n + 1 - i,
    {
        proof {
            lemma_skip_step(t@, i as int, m as int);
            lemma_skip_step(t@, i as int, 1);
        }
        if matches_at(t, p, i) {
            cnt = cnt + 1;
            i = i + m;
        } else {
            i = i + 1;
        }
    }
    if i <= n {
        assert(t@.skip(i as int).len() < m);
    } else {
        assert(false);
    }
    cnt
}

/// The first index where `p` occurs in `t`.
pub fn find_first_index(t: &Vec<char>, p: &Vec<char>) -> (r: Option<usize>)
    ensures
        match r {
            Some(i) => find_first(t@, p@) == Some(i as int),
            None => find_first(t@, p@) is None,
        },
{
    let n = t.len();
    let m = p.len();
    if m > n {
        return None;
    }
    if m == 0 {
        assert(t@.subrange(0, 0) =~= p@);
        return Some(0);
    }
    let mut i: usize = 0;
    while i <= n - m
        invariant
            n == t@.len(),
            m == p@.len(),
            m <= n,
            m > 0,
            i <= n - m + 1,
            find_first(t@, p@) == find_from(t@, p@, i as int),
        decreases n - m + 1 - i,
    {
        if matches_at(t, p, i) {
            return Some(i);
        }
        i = i + 1;
    }
    None
}

/// Appends `t` with every occurrence of `p` replaced by `r`.
pub fn push_replace_all(out: &mut String, t: &Vec<char>, p: &Vec<char>, r: &Vec<char>)
    ensures
        final(out)@ == old(out)@ + replace_all(t@, p@, r@),
{
    let n = t.len();
    let m = p.len();
    let ghost start = out@;
    if m == 0 {
        let mut i: usize = 0;
        assert(t@.skip(0) =~= t@);
        assert(start =~= start + Seq::<char>::empty());
        let ghost done: Seq<char> = Seq::empty();
        while i < n
            invariant
                n == t@.len(),
                m == 0,
                i <= n,
                p@.len() == 0,
                exists|d: Seq<char>|
                    out@ == start + d && interleave(t@, r@) == d + interleave(t@.skip(i as int), r@),
            decreases n - i,
        {
            let ghost d = choose|d: Seq<char>|
                out@ == start + d && interleave(t@, r@) == d + interleave(t@.skip(i as int), r@);
            append_chars(out, r, 0, r.len());
            push_char(out, t[i]);
            proof {
                let rest = t@.skip(i as int);
                assert(rest.len() > 0);
                assert(rest[0] == t@[i as int]);
                assert(rest.skip(1) =~= t@.skip(i + 1));
                assert(r@.subrange(0, r@.len() as int) =~= r@);
                let d2 = d + r@ + seq![t@[i as int]];
                assert(out@ =~= start + d2);
                assert(interleave(rest, r@) == r@ + seq![rest[0]] + interleave(rest.skip(1), r@));
                assert(d + (r@ + seq![rest[0]] + interleave(rest.skip(1), r@)) =~= d2
                    + interleave(t@.skip(i + 1), r@));
            }
            i = i + 1;
        }
        let ghost d = choose|d: Seq<char>|
            out@ == start + d && interleave(t@, r@) == d + interleave(t@.skip(i as int), r@);
        assert(t@.skip(i as int).len() == 0);
        append_chars(out, r, 0, r.len());
        assert(r@.subrange(0, r@.len() as int) =~= r@);
        assert(out@ =~= start + interleave(t@, r@));
        return ;
    }
    let mut i: usize = 0;
    let mut seg_start: usize = 0;
    assert(t@.skip(0) =~= t@);
    assert(out@ + t@.subrange(0, 0) == start + Seq::<char>::empty() && replace_all(t@, p@, r@)
        == Seq::<char>::empty() + replace_all(t@.skip(0), p@, r@)) by {
        assert(out@ + t@.subrange(0, 0) =~= start + Seq::<char>::empty());
        assert(Seq::<char>::empty() + replace_all(t@.skip(0), p@, r@) =~= replace_all(
            t@,
            p@,
            r@,
        ));
    }
    while i <= n && m <= n - i
        invariant
            n == t@.len(),
            m == p@.len(),
            m > 0,
            seg_start <= i <= n,
            exists|d: Seq<char>|
                out@ + t@.subrange(seg_start as int, i as int) == start + d && replace_all(
                    t@,
                    p@,
                    r@,
                ) == d + replace_all(t@.skip(i as int), p@, r@),
        decreases n + 1 - i,
    {
        let ghost d = choose|d: Seq<char>|
            out@ + t@.subrange(seg_start as int, i as int) == start + d && replace_all(
                t@,
                p@,
                r@,
            ) == d + replace_all(t@.skip(i as int), p@, r@);
        proof {
            lemma_skip_step(t@, i as int, m as int);
            lemma_skip_step(t@, i as int, 1);
        }
        let ghost before = out@;
        if matches_at(t, p, i) {
            append_chars(out, t, seg_start, i);
            append_chars(out, r, 0, r.len());
            proof {
                assert(r@.subrange(0, r@.len() as int) =~= r@);
                let rest = t@.skip(i as int);
                assert(rest.take(m as int) == p@);
                assert(replace_all(rest, p@, r@) == r@ + replace_all(rest.skip(m as int), p@, r@));
                assert(t@.subrange((i + m) as int, (i + m) as int) =~= Seq::<char>::empty());
                let d2 = d + r@;
                assert(out@ + t@.subrange((i + m) as int, (i + m) as int) =~= start + d2);
                assert(d + (r@ + replace_all(t@.skip((i + m) as int), p@, r@)) =~= d2
                    + replace_all(t@.skip((i + m) as int), p@, r@));
            }
            i = i + m;
            seg_start = i;
        } else {
            proof {
                let rest = t@.skip(i as int);
                assert(rest.take(m as int) != p@);
                assert(replace_all(rest, p@, r@) == seq![rest[0]] + replace_all(
                    rest.skip(1),
                    p@,
                    r@,
                ));
                assert(rest[0] == t@[i as int]);
                assert(t@.subrange(seg_start as int, (i + 1) as int) =~= t@.subrange(
                    seg_start as int,
                    i as int,
                ).push(t@[i as int]));
                let d2 = d + seq![t@[i as int]];
                assert(out@ == before);
                assert(out@ + t@.subrange(seg_start as int, (i + 1) as int) =~= (out@ + t@.subrange(
                    seg_start as int,
                    i as int,
                )).push(t@[i as int]));
                assert((start + d).push(t@[i as int]) =~= start + d2);
                assert(out@ + t@.subrange(seg_start as int, (i + 1) as int) =~= start + d2);
                assert(d + (seq![rest[0]] + replace_all(t@.skip((i + 1) as int), p@, r@)) =~= d2
                    + replace_all(t@.skip((i + 1) as int), p@, r@));
            }
            i = i + 1;
        }
    }
    let ghost d = choose|d: Seq<char>|
        out@ + t@.subrange(seg_start as int, i as int) == start + d && replace_all(t@, p@, r@) == d
            + replace_all(t@.skip(i as int), p@, r@);
    assert(t@.skip(i as int).len() < m);
    assert(replace_all(t@.skip(i as int), p@, r@) == t@.skip(i as int));
    append_chars(out, t, seg_start, n);
    assert(t@.subrange(seg_start as int, i as int) + t@.skip(i as int) =~= t@.subrange(
        seg_start as int,
        n as int,
    ));
    assert(out@ =~= (start + d) + t@.skip(i as int));
    assert(out@ =~= start + replace_all(t@, p@, r@));
}

} // verus!
