//! Character-level primitives shared by the macro resolver and the tree
//! builder: literal occurrence tests, whitespace runs and literal replacement.
use vstd::prelude::*;

verus! {

/// Unicode `White_Space` property.
pub open spec fn is_space(c: char) -> bool {
    ('\u{9}' <= c && c <= '\u{d}') || c == ' ' || c == '\u{85}' || c == '\u{a0}'
        || c == '\u{1680}' || ('\u{2000}' <= c && c <= '\u{200a}') || c == '\u{2028}'
        || c == '\u{2029}' || c == '\u{202f}' || c == '\u{205f}' || c == '\u{3000}'
}

pub(crate) fn is_space_char(c: char) -> (r: bool)
    ensures
        r == is_space(c),
{
    ('\u{9}' <= c && c <= '\u{d}') || c == ' ' || c == '\u{85}' || c == '\u{a0}'
        || c == '\u{1680}' || ('\u{2000}' <= c && c <= '\u{200a}') || c == '\u{2028}'
        || c == '\u{2029}' || c == '\u{202f}' || c == '\u{205f}' || c == '\u{3000}'
}

/// `p` occurs in `s` starting at position `i`.
pub open spec fn occurs_at(s: Seq<char>, i: int, p: Seq<char>) -> bool {
    0 <= i && i + p.len() <= s.len() && forall|k: int| 0 <= k < p.len() ==> s[i + k] == p[k]
}

pub(crate) fn occurs_at_exec(s: &Vec<char>, i: usize, p: &Vec<char>) -> (r: bool)
    ensures
        r == occurs_at(s@, i as int, p@),
{
    if i > s.len() || p.len() > s.len() - i {
        return false;
    }
    let mut k: usize = 0;
    while k < p.len()
        invariant
            i + p.len() <= s.len(),
            k <= p.len(),
            forall|m: int| 0 <= m < k ==> s@[i + m] == p@[m],
        decreases p.len() - k,
    {
        if s[i + k] != p[k] {
            return false;
        }
        k += 1;
    }
    true
}

/// Length of the run of whitespace in `s` that starts at `i`.
pub open spec fn space_run(s: Seq<char>, i: int) -> nat
    decreases s.len() - i,
{
    if 0 <= i < s.len() && is_space(s[i]) {
        1 + space_run(s, i + 1)
    } else {
        0
    }
}

pub(crate) fn space_run_exec(s: &Vec<char>, i: usize) -> (r: usize)
    requires
        i <= s.len(),
    ensures
        r == space_run(s@, i as int),
        i + r <= s.len(),
{
    let mut j: usize = i;
    while j < s.len() && is_space_char(s[j])
        invariant
            i <= j <= s.len(),
            space_run(s@, i as int) == (j - i) + space_run(s@, j as int),
        decreases s.len() - j,
    {
        j += 1;
    }
    j - i
}

/// Position of the first `c` in `s` at or after `i`.
pub open spec fn first_index_from(s: Seq<char>, c: char, i: int) -> Option<int>
    decreases s.len() - i,
{
    if i < 0 || i >= s.len() {
        None
    } else if s[i] == c {
        Some(i)
    } else {
        first_index_from(s, c, i + 1)
    }
}

pub(crate) fn first_index_from_exec(s: &Vec<char>, c: char, i: usize) -> (r: Option<usize>)
    ensures
        r matches Some(j) ==> first_index_from(s@, c, i as int) == Some(j as int),
        r is None ==> first_index_from(s@, c, i as int) is None,
{
    let mut j: usize = i;
    while j < s.len()
        invariant
            i <= j,
            first_index_from(s@, c, i as int) == first_index_from(s@, c, j as int),
        decreases s.len() - j,
    {
        if s[j] == c {
            return Some(j);
        }
        j += 1;
    }
    None
}

/// Appends all of `r` to `out`.
pub(crate) fn push_all(out: &mut Vec<char>, r: &Vec<char>)
    ensures
        final(out)@ == old(out)@ + r@,
{
    let ghost before = out@;
    let mut k: usize = 0;
    while k < r.len()
        invariant
            k <= r.len(),
            out@ == before + r@.subrange(0, k as int),
        decreases r.len() - k,
    {
        out.push(r[k]);
        k += 1;
        proof {
            assert(r@.subrange(0, k as int) =~= r@.subrange(0, k - 1) + seq![r@[k - 1]]);
        }
    }
    proof {
        assert(r@.subrange(0, r@.len() as int) =~= r@);
    }
}

/// Appends `s[a..b]` to `out`.
pub(crate) fn push_range(out: &mut Vec<char>, s: &Vec<char>, a: usize, b: usize)
    requires
        a <= b <= s.len(),
    ensures
        final(out)@ == old(out)@ + s@.subrange(a as int, b as int),
{
    let ghost before = out@;
    let mut k: usize = a;
    while k < b
        invariant
            a <= k <= b <= s.len(),
            out@ == before + s@.subrange(a as int, k as int),
        decreases b - k,
    {
        out.push(s[k]);
        k += 1;
        proof {
            assert(s@.subrange(a as int, k as int) =~= s@.subrange(a as int, k - 1) + seq![
                s@[k - 1],
            ]);
        }
    }
}

/// `s` from position `i` on, with every occurrence of `p` (taken left to
/// right, without overlap) replaced by `r`.
pub open spec fn replaced_from(s: Seq<char>, i: int, p: Seq<char>, r: Seq<char>) -> Seq<char>
    decreases s.len() - i,
{
    if i < 0 || i >= s.len() {
        Seq::empty()
    } else if p.len() > 0 && occurs_at(s, i, p) {
        r + replaced_from(s, i + p.len(), p, r)
    } else {
        seq![s[i]] + replaced_from(s, i + 1, p, r)
    }
}

/// Every occurrence of `p` in `s` replaced by `r`, as `str::replace` does.
pub open spec fn replaced(s: Seq<char>, p: Seq<char>, r: Seq<char>) -> Seq<char> {
    replaced_from(s, 0, p, r)
}

pub(crate) fn replace_literal(s: &Vec<char>, p: &Vec<char>, r: &Vec<char>) -> (out: Vec<char>)
    requires
        p@.len() > 0,
    ensures
        out@ == replaced(s@, p@, r@),
{
    let mut out: Vec<char> = Vec::new();
    let mut i: usize = 0;
    while i < s.len()
        invariant
            i <= s.len(),
            p@.len() > 0,
            out@ + replaced_from(s@, i as int, p@, r@) == replaced(s@, p@, r@),
        decreases s.len() - i,
    {
        if occurs_at_exec(s, i, p) {
            let ghost before = out@;
            push_all(&mut out, r);
            proof {
                assert(before + (r@ + replaced_from(s@, i + p@.len(), p@, r@)) =~= out@
                    + replaced_from(s@, i + p@.len(), p@, r@));
            }
            i = i + p.len();
        } else {
            let ghost before = out@;
            out.push(s[i]);
            proof {
                assert(before + (seq![s@[i as int]] + replaced_from(s@, i + 1, p@, r@)) =~= out@
                    + replaced_from(s@, i + 1, p@, r@));
            }
            i = i + 1;
        }
    }
    proof {
        assert(out@ + Seq::<char>::empty() =~= out@);
    }
    out
}

} // verus!
