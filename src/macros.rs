//! Macro resolution: package-path tokens `$(find <package>)` become paths
//! under the models root, and `<xacro:include filename="..."/>` directives
//! are replaced by the included fragments, stripped of their XML declaration
//! and of their `robot` root tags.
use vstd::prelude::*;
use crate::text::{
    first_index_from, first_index_from_exec, is_space, occurs_at, occurs_at_exec, push_all,
    push_range, space_run, space_run_exec,
};

verus! {

pub open spec fn find_open() -> Seq<char> {
    seq!['$', '(', 'f', 'i', 'n', 'd']
}

/// The models root that package names are resolved against, with its separator.
pub open spec fn models_prefix() -> Seq<char> {
    seq!['a', 's', 's', 'e', 't', 's', '/', 'm', 'o', 'd', 'e', 'l', 's', '/']
}

fn find_open_chars() -> (r: Vec<char>)
    ensures
        r@ == find_open(),
{
    let r = vec!['$', '(', 'f', 'i', 'n', 'd'];
    assert(r@ =~= find_open());
    r
}

fn models_prefix_chars() -> (r: Vec<char>)
    ensures
        r@ == models_prefix(),
{
    let r = vec!['a', 's', 's', 'e', 't', 's', '/', 'm', 'o', 'd', 'e', 'l', 's', '/'];
    assert(r@ =~= models_prefix());
    r
}

/// The package-path token `$(find <spaces> <package>)` that starts at `i`,
/// as (package start, package end, token end). The spaces are the longest
/// run that leaves the package non-empty; the package runs to the first `)`.
pub open spec fn package_token_at(s: Seq<char>, i: int) -> Option<(int, int, int)> {
    if occurs_at(s, i, find_open()) {
        let w = space_run(s, i + 6);
        match first_index_from(s, ')', i + 6) {
            Some(c) => if w >= 1 && i + 8 <= c < s.len() {
                let g = if w < c - i - 7 {
                    w as int
                } else {
                    c - i - 7
                };
                Some((i + 6 + g, c, c + 1))
            } else {
                None
            },
            None => None,
        }
    } else {
        None
    }
}

/// `s` from position `i` on, with each package-path token replaced by the
/// models prefix followed by its package.
pub open spec fn packages_resolved_from(s: Seq<char>, i: int) -> Seq<char>
    decreases s.len() - i,
{
    if i < 0 || i >= s.len() {
        Seq::empty()
    } else {
        match package_token_at(s, i) {
            Some((a, b, e)) => models_prefix() + s.subrange(a, b) + packages_resolved_from(s, e),
            None => seq![s[i]] + packages_resolved_from(s, i + 1),
        }
    }
}

pub open spec fn packages_resolved(s: Seq<char>) -> Seq<char> {
    packages_resolved_from(s, 0)
}

fn package_token_exec(s: &Vec<char>, i: usize) -> (r: Option<(usize, usize, usize)>)
    requires
        i < s.len(),
    ensures
        r matches Some((a, b, e)) ==> package_token_at(s@, i as int) == Some(
            (a as int, b as int, e as int),
        ) && a <= b < e <= s.len() && i < e,
        r is None ==> package_token_at(s@, i as int) is None,
{
    let open = find_open_chars();
    if !occurs_at_exec(s, i, &open) {
        return None;
    }
    let w = space_run_exec(s, i + 6);
    match first_index_from_exec(s, ')', i + 6) {
        Some(c) => {
            if w >= 1 && c >= i + 6 && c - (i + 6) >= 2 && c < s.len() {
                let g = if w < c - i - 7 {
                    w
                } else {
                    c - i - 7
                };
                Some((i + 6 + g, c, c + 1))
            } else {
                None
            }
        },
        None => None,
    }
}

/// Replaces every package-path token of `s` by its path under the models root.
pub fn resolve_packages(s: &Vec<char>) -> (out: Vec<char>)
    ensures
        out@ == packages_resolved(s@),
{
    let prefix = models_prefix_chars();
    let mut out: Vec<char> = Vec::new();
    let mut i: usize = 0;
    while i < s.len()
        invariant
            i <= s.len(),
            prefix@ == models_prefix(),
            out@ + packages_resolved_from(s@, i as int) == packages_resolved(s@),
        decreases s.len() - i,
    {
        let ghost before = out@;
        match package_token_exec(s, i) {
            Some((a, b, e)) => {
                push_all(&mut out, &prefix);
                push_range(&mut out, s, a, b);
                proof {
                    assert(before + (models_prefix() + s@.subrange(a as int, b as int)
                        + packages_resolved_from(s@, e as int)) =~= out@ + packages_resolved_from(
                        s@,
                        e as int,
                    ));
                }
                i = e;
            },
            None => {
                out.push(s[i]);
                proof {
                    assert(before + (seq![s@[i as int]] + packages_resolved_from(s@, i + 1))
                        =~= out@ + packages_resolved_from(s@, i + 1));
                }
                i = i + 1;
            },
        }
    }
    proof {
        assert(out@ + Seq::<char>::empty() =~= out@);
    }
    out
}


pub open spec fn include_open() -> Seq<char> {
    seq!['<', 'x', 'a', 'c', 'r', 'o', ':', 'i', 'n', 'c', 'l', 'u', 'd', 'e']
}

pub open spec fn filename_attr() -> Seq<char> {
    seq!['f', 'i', 'l', 'e', 'n', 'a', 'm', 'e', '=', '"']
}

pub open spec fn empty_close() -> Seq<char> {
    seq!['/', '>']
}

fn include_open_chars() -> (r: Vec<char>)
    ensures
        r@ == include_open(),
{
    let r = vec!['<', 'x', 'a', 'c', 'r', 'o', ':', 'i', 'n', 'c', 'l', 'u', 'd', 'e'];
    assert(r@ =~= include_open());
    r
}

fn filename_attr_chars() -> (r: Vec<char>)
    ensures
        r@ == filename_attr(),
{
    let r = vec!['f', 'i', 'l', 'e', 'n', 'a', 'm', 'e', '=', '"'];
    assert(r@ =~= filename_attr());
    r
}

fn empty_close_chars() -> (r: Vec<char>)
    ensures
        r@ == empty_close(),
{
    let r = vec!['/', '>'];
    assert(r@ =~= empty_close());
    r
}

/// The inclusion directive `<xacro:include <spaces> filename="<path>" <spaces>/>`
/// that starts at `i`, as (path start, path end, directive end). The first run
/// of spaces is not empty, the second may be; the path is not empty and runs to
/// the first `"`.
pub open spec fn include_at(s: Seq<char>, i: int) -> Option<(int, int, int)> {
    if occurs_at(s, i, include_open()) {
        let w1 = space_run(s, i + 14);
        let a = i + 14 + w1 + 10;
        if w1 >= 1 && occurs_at(s, i + 14 + w1, filename_attr()) {
            match first_index_from(s, '"', a) {
                Some(q) => if a < q < s.len() {
                    let w2 = space_run(s, q + 1);
                    if occurs_at(s, q + 1 + w2, empty_close()) {
                        Some((a, q, q + 3 + w2))
                    } else {
                        None
                    }
                } else {
                    None
                },
                None => None,
            }
        } else {
            None
        }
    } else {
        None
    }
}

fn include_exec(s: &Vec<char>, i: usize) -> (r: Option<(usize, usize, usize)>)
    requires
        i < s.len(),
    ensures
        r matches Some((a, b, e)) ==> include_at(s@, i as int) == Some(
            (a as int, b as int, e as int),
        ) && a < b < e <= s.len() && i < e,
        r is None ==> include_at(s@, i as int) is None,
{
    let open = include_open_chars();
    if !occurs_at_exec(s, i, &open) {
        return None;
    }
    let w1 = space_run_exec(s, i + 14);
    let attr = filename_attr_chars();
    if w1 < 1 || !occurs_at_exec(s, i + 14 + w1, &attr) {
        return None;
    }
    let a = i + 14 + w1 + 10;
    match first_index_from_exec(s, '"', a) {
        Some(q) => {
            if a < q && q < s.len() {
                let w2 = space_run_exec(s, q + 1);
                let close = empty_close_chars();
                if occurs_at_exec(s, q + 1 + w2, &close) {
                    Some((a, q, q + 3 + w2))
                } else {
                    None
                }
            } else {
                None
            }
        },
        None => None,
    }
}

/// The paths named by the inclusion directives of `s` from `i` on, in order.
pub open spec fn include_targets_from(s: Seq<char>, i: int) -> Seq<Seq<char>>
    decreases s.len() - i,
{
    if i < 0 || i >= s.len() {
        Seq::empty()
    } else {
        match include_at(s, i) {
            Some((a, b, e)) => seq![s.subrange(a, b)] + include_targets_from(s, e),
            None => include_targets_from(s, i + 1),
        }
    }
}

pub open spec fn include_targets(s: Seq<char>) -> Seq<Seq<char>> {
    include_targets_from(s, 0)
}

/// The paths named by the inclusion directives of `s`, in order of appearance.
pub fn include_paths(s: &Vec<char>) -> (out: Vec<Vec<char>>)
    ensures
        out@.len() == include_targets(s@).len(),
        forall|k: int| 0 <= k < out@.len() ==> #[trigger] out@[k]@ == include_targets(s@)[k],
{
    let mut out: Vec<Vec<char>> = Vec::new();
    let mut i: usize = 0;
    while i < s.len()
        invariant
            i <= s.len(),
            out@.len() + include_targets_from(s@, i as int).len() == include_targets(s@).len(),
            forall|k: int| 0 <= k < out@.len() ==> #[trigger] out@[k]@ == include_targets(s@)[k],
            forall|k: int|
                0 <= k < include_targets_from(s@, i as int).len() ==> #[trigger] include_targets_from(
                    s@,
                    i as int,
                )[k] == include_targets(s@)[out@.len() + k],
        decreases s.len() - i,
    {
        match include_exec(s, i) {
            Some((a, b, e)) => {
                let mut path: Vec<char> = Vec::new();
                push_range(&mut path, s, a, b);
                proof {
                    let rest = include_targets_from(s@, e as int);
                    let here = include_targets_from(s@, i as int);
                    assert(here == seq![s@.subrange(a as int, b as int)] + rest);
                    assert(here[0] == include_targets(s@)[out@.len() as int]);
                    assert forall|k: int| 0 <= k < rest.len() implies #[trigger] rest[k]
                        == include_targets(s@)[out@.len() + 1 + k] by {
                        assert(here[k + 1] == rest[k]);
                    }
                }
                out.push(path);
                i = e;
            },
            None => {
                i = i + 1;
            },
        }
    }
    out
}

/// The patterns removed from an included fragment, each at its first match.
pub enum FragmentTag {
    /// `<?xml ... ?>`
    Declaration,
    /// `< robot ... >`
    RootOpen,
    /// `< / robot >`
    RootClose,
}

pub open spec fn decl_open() -> Seq<char> {
    seq!['<', '?', 'x', 'm', 'l']
}

pub open spec fn robot_word() -> Seq<char> {
    seq!['r', 'o', 'b', 'o', 't']
}

fn decl_open_chars() -> (r: Vec<char>)
    ensures
        r@ == decl_open(),
{
    let r = vec!['<', '?', 'x', 'm', 'l'];
    assert(r@ =~= decl_open());
    r
}

fn robot_word_chars() -> (r: Vec<char>)
    ensures
        r@ == robot_word(),
{
    let r = vec!['r', 'o', 'b', 'o', 't'];
    assert(r@ =~= robot_word());
    r
}

/// End of the match of `tag` that starts at `i`:
/// - a declaration is `<?xml`, then anything up to the first `>`, which
///   must directly follow a `?`;
/// - an opening root tag is `<`, spaces, `robot`, then anything up to the first `>`;
/// - a closing root tag is `<`, spaces, `/`, spaces, `robot`, spaces, `>`.
pub open spec fn tag_end_at(tag: FragmentTag, s: Seq<char>, i: int) -> Option<int> {
    match tag {
        FragmentTag::Declaration => if occurs_at(s, i, decl_open()) {
            match first_index_from(s, '>', i + 5) {
                Some(g) => if i + 6 <= g < s.len() && s[g - 1] == '?' {
                    Some(g + 1)
                } else {
                    None
                },
                None => None,
            }
        } else {
            None
        },
        FragmentTag::RootOpen => if 0 <= i < s.len() && s[i] == '<' {
            let w = space_run(s, i + 1);
            if occurs_at(s, i + 1 + w, robot_word()) {
                match first_index_from(s, '>', i + 6 + w) {
                    Some(g) => if i + 6 + w <= g < s.len() {
                        Some(g + 1)
                    } else {
                        None
                    },
                    None => None,
                }
            } else {
                None
            }
        } else {
            None
        },
        FragmentTag::RootClose => if 0 <= i < s.len() && s[i] == '<' {
            let w1 = space_run(s, i + 1);
            let w2 = space_run(s, i + 2 + w1);
            let w3 = space_run(s, i + 7 + w1 + w2);
            if i + 1 + w1 < s.len() && s[i + 1 + w1] == '/' && occurs_at(
                s,
                i + 2 + w1 + w2,
                robot_word(),
            ) && i + 7 + w1 + w2 + w3 < s.len() && s[i + 7 + w1 + w2 + w3] == '>' {
                Some(i + 8 + w1 + w2 + w3)
            } else {
                None
            }
        } else {
            None
        },
    }
}

fn tag_end_exec(tag: &FragmentTag, s: &Vec<char>, i: usize) -> (r: Option<usize>)
    requires
        i < s.len(),
    ensures
        r matches Some(e) ==> tag_end_at(*tag, s@, i as int) == Some(e as int) && i < e <= s.len(),
        r is None ==> tag_end_at(*tag, s@, i as int) is None,
{
    match tag {
        FragmentTag::Declaration => {
            let open = decl_open_chars();
            if !occurs_at_exec(s, i, &open) {
                return None;
            }
            match first_index_from_exec(s, '>', i + 5) {
                Some(g) => {
                    if g >= i + 6 && g < s.len() && s[g - 1] == '?' {
                        Some(g + 1)
                    } else {
                        None
                    }
                },
                None => None,
            }
        },
        FragmentTag::RootOpen => {
            if s[i] != '<' {
                return None;
            }
            let w = space_run_exec(s, i + 1);
            let word = robot_word_chars();
            if !occurs_at_exec(s, i + 1 + w, &word) {
                return None;
            }
            match first_index_from_exec(s, '>', i + 6 + w) {
                Some(g) => {
                    if g >= i + 6 + w && g < s.len() {
                        Some(g + 1)
                    } else {
                        None
                    }
                },
                None => None,
            }
        },
        FragmentTag::RootClose => {
            if s[i] != '<' {
                return None;
            }
            let w1 = space_run_exec(s, i + 1);
            if i + 1 + w1 >= s.len() || s[i + 1 + w1] != '/' {
                return None;
            }
            let w2 = space_run_exec(s, i + 2 + w1);
            let word = robot_word_chars();
            if !occurs_at_exec(s, i + 2 + w1 + w2, &word) {
                return None;
            }
            let w3 = space_run_exec(s, i + 7 + w1 + w2);
            if i + 7 + w1 + w2 + w3 < s.len() && s[i + 7 + w1 + w2 + w3] == '>' {
                Some(i + 8 + w1 + w2 + w3)
            } else {
                None
            }
        },
    }
}

/// The leftmost match of `tag` in `s` at or after `i`, as (start, end).
pub open spec fn first_tag_from(tag: FragmentTag, s: Seq<char>, i: int) -> Option<(int, int)>
    decreases s.len() - i,
{
    if i < 0 || i >= s.len() {
        None
    } else {
        match tag_end_at(tag, s, i) {
            Some(e) => Some((i, e)),
            None => first_tag_from(tag, s, i + 1),
        }
    }
}

/// `s` without the leftmost match of `tag`, or `s` itself when there is none.
pub open spec fn without_first(tag: FragmentTag, s: Seq<char>) -> Seq<char> {
    match first_tag_from(tag, s, 0) {
        Some((b, e)) => s.subrange(0, b) + s.subrange(e, s.len() as int),
        None => s,
    }
}

/// Removes the leftmost match of `tag` from `s`.
pub fn remove_first(tag: &FragmentTag, s: &Vec<char>) -> (out: Vec<char>)
    ensures
        out@ == without_first(*tag, s@),
{
    let mut i: usize = 0;
    while i < s.len()
        invariant
            i <= s.len(),
            first_tag_from(*tag, s@, 0) == first_tag_from(*tag, s@, i as int),
        decreases s.len() - i,
    {
        match tag_end_exec(tag, s, i) {
            Some(e) => {
                let mut out: Vec<char> = Vec::new();
                push_range(&mut out, s, 0, i);
                push_range(&mut out, s, e, s.len());
                return out;
            },
            None => {
                i = i + 1;
            },
        }
    }
    let mut out: Vec<char> = Vec::new();
    push_range(&mut out, s, 0, s.len());
    proof {
        assert(s@.subrange(0, s@.len() as int) =~= s@);
    }
    out
}


/// An included file's text as it is spliced in: package paths resolved, then
/// the declaration, the opening root tag and the closing root tag removed.
pub open spec fn fragment_body(raw: Seq<char>) -> Seq<char> {
    without_first(
        FragmentTag::RootClose,
        without_first(
            FragmentTag::RootOpen,
            without_first(FragmentTag::Declaration, packages_resolved(raw)),
        ),
    )
}

/// What the `k`-th directive is replaced by: its fragment, or nothing when
/// the file could not be read.
pub open spec fn replacement_at(bodies: Seq<Option<Vec<char>>>, k: int) -> Seq<char> {
    if 0 <= k < bodies.len() {
        match bodies[k] {
            Some(raw) => fragment_body(raw@),
            None => Seq::empty(),
        }
    } else {
        Seq::empty()
    }
}

/// `s` from `i` on, with the directives numbered from `k` replaced by their fragments.
pub open spec fn inlined_from(s: Seq<char>, i: int, bodies: Seq<Option<Vec<char>>>, k: int) -> Seq<
    char,
>
    decreases s.len() - i,
{
    if i < 0 || i >= s.len() {
        Seq::empty()
    } else {
        match include_at(s, i) {
            Some((_, _, e)) => replacement_at(bodies, k) + inlined_from(s, e, bodies, k + 1),
            None => seq![s[i]] + inlined_from(s, i + 1, bodies, k),
        }
    }
}

pub open spec fn inlined(s: Seq<char>, bodies: Seq<Option<Vec<char>>>) -> Seq<char> {
    inlined_from(s, 0, bodies, 0)
}

/// Processes the text of an included file into the fragment spliced in its place.
pub fn fragment_of(raw: &Vec<char>) -> (out: Vec<char>)
    ensures
        out@ == fragment_body(raw@),
{
    let resolved = resolve_packages(raw);
    let a = remove_first(&FragmentTag::Declaration, &resolved);
    let b = remove_first(&FragmentTag::RootOpen, &a);
    remove_first(&FragmentTag::RootClose, &b)
}

/// Replaces the `k`-th inclusion directive of `s` by the fragment made from
/// `bodies[k]`: the text of the file it names, or `None` where that file
/// could not be read, which makes the directive vanish.
pub fn inline_includes(s: &Vec<char>, bodies: &Vec<Option<Vec<char>>>) -> (out: Vec<char>)
    ensures
        out@ == inlined(s@, bodies@),
{
    let mut out: Vec<char> = Vec::new();
    let mut i: usize = 0;
    let mut k: usize = 0;
    while i < s.len()
        invariant
            i <= s.len(),
            k <= i,
            out@ + inlined_from(s@, i as int, bodies@, k as int) == inlined(s@, bodies@),
        decreases s.len() - i,
    {
        let ghost before = out@;
        match include_exec(s, i) {
            Some((_, _, e)) => {
                if k < bodies.len() {
                    match &bodies[k] {
                        Some(raw) => {
                            let frag = fragment_of(raw);
                            push_all(&mut out, &frag);
                        },
                        None => {},
                    }
                }
                proof {
                    assert(out@ == before + replacement_at(bodies@, k as int));
                    assert(before + (replacement_at(bodies@, k as int) + inlined_from(
                        s@,
                        e as int,
                        bodies@,
                        k + 1,
                    )) =~= out@ + inlined_from(s@, e as int, bodies@, k + 1));
                }
                i = e;
                k = k + 1;
            },
            None => {
                out.push(s[i]);
                proof {
                    assert(before + (seq![s@[i as int]] + inlined_from(s@, i + 1, bodies@, k as int))
                        =~= out@ + inlined_from(s@, i + 1, bodies@, k as int));
                }
                i = i + 1;
            },
        }
    }
    proof {
        assert(out@ + Seq::<char>::empty() =~= out@);
    }
    out
}


proof fn lemma_space_run_shift(s: Seq<char>, d: int, i: int)
    requires
        0 <= d <= s.len(),
        0 <= i,
    ensures
        space_run(s, i + d) == space_run(s.subrange(d, s.len() as int), i),
    decreases s.len() - i - d,
{
    if i + d < s.len() {
        lemma_space_run_shift(s, d, i + 1);
    }
}

proof fn lemma_first_index_shift(s: Seq<char>, c: char, d: int, i: int)
    requires
        0 <= d <= s.len(),
        0 <= i,
    ensures
        first_index_from(s, c, i + d) == (match first_index_from(
            s.subrange(d, s.len() as int),
            c,
            i,
        ) {
            Some(j) => Some(j + d),
            None => None,
        }),
    decreases s.len() - i - d,
{
    if i + d < s.len() {
        lemma_first_index_shift(s, c, d, i + 1);
    }
}

proof fn lemma_occurs_shift(s: Seq<char>, d: int, i: int, p: Seq<char>)
    requires
        0 <= d <= s.len(),
        0 <= i,
    ensures
        occurs_at(s, i + d, p) == occurs_at(s.subrange(d, s.len() as int), i, p),
{
    let t = s.subrange(d, s.len() as int);
    if occurs_at(s, i + d, p) {
        assert forall|k: int| 0 <= k < p.len() implies t[i + k] == p[k] by {
            assert(s[i + d + k] == p[k]);
        }
    }
    if occurs_at(t, i, p) {
        assert forall|k: int| 0 <= k < p.len() implies s[i + d + k] == p[k] by {
            assert(t[i + k] == p[k]);
        }
    }
}

proof fn lemma_package_token_shift(s: Seq<char>, d: int, i: int)
    requires
        0 <= d <= s.len(),
        0 <= i,
    ensures
        package_token_at(s, i + d) == (match package_token_at(s.subrange(d, s.len() as int), i) {
            Some((a, b, e)) => Some((a + d, b + d, e + d)),
            None => None,
        }),
{
    lemma_occurs_shift(s, d, i, find_open());
    lemma_space_run_shift(s, d, i + 6);
    lemma_first_index_shift(s, ')', d, i + 6);
}

proof fn lemma_packages_resolved_shift(s: Seq<char>, d: int, i: int)
    requires
        0 <= d <= s.len(),
        0 <= i,
    ensures
        packages_resolved_from(s, i + d) == packages_resolved_from(
            s.subrange(d, s.len() as int),
            i,
        ),
    decreases s.len() - i - d,
{
    let t = s.subrange(d, s.len() as int);
    if i + d < s.len() {
        lemma_package_token_shift(s, d, i);
        match package_token_at(t, i) {
            Some((a, b, e)) => {
                lemma_packages_resolved_shift(s, d, e);
                assert(s.subrange(a + d, b + d) =~= t.subrange(a, b));
            },
            None => {
                lemma_packages_resolved_shift(s, d, i + 1);
            },
        }
    }
}

proof fn lemma_packages_unchanged_from(s: Seq<char>, i: int)
    requires
        0 <= i <= s.len(),
        forall|j: int| 0 <= j < s.len() ==> package_token_at(s, j) is None,
    ensures
        packages_resolved_from(s, i) == s.subrange(i, s.len() as int),
    decreases s.len() - i,
{
    if i < s.len() {
        lemma_packages_unchanged_from(s, i + 1);
        assert(s.subrange(i, s.len() as int) =~= seq![s[i]] + s.subrange(i + 1, s.len() as int));
    } else {
        assert(s.subrange(i, s.len() as int) =~= Seq::<char>::empty());
    }
}

proof fn lemma_inlined_unchanged_from(
    s: Seq<char>,
    i: int,
    bodies: Seq<Option<Vec<char>>>,
    k: int,
)
    requires
        0 <= i <= s.len(),
        forall|j: int| 0 <= j < s.len() ==> include_at(s, j) is None,
    ensures
        inlined_from(s, i, bodies, k) == s.subrange(i, s.len() as int),
        include_targets_from(s, i).len() == 0,
    decreases s.len() - i,
{
    if i < s.len() {
        lemma_inlined_unchanged_from(s, i + 1, bodies, k);
        assert(s.subrange(i, s.len() as int) =~= seq![s[i]] + s.subrange(i + 1, s.len() as int));
    } else {
        assert(s.subrange(i, s.len() as int) =~= Seq::<char>::empty());
    }
}

/// A description in which no package-path token and no inclusion directive
/// starts anywhere comes out of resolution exactly as it went in, whatever
/// file contents are supplied, and names no file to include.
pub proof fn resolution_without_macros_is_identity(s: Seq<char>, bodies: Seq<Option<Vec<char>>>)
    requires
        forall|j: int| 0 <= j < s.len() ==> package_token_at(s, j) is None,
        forall|j: int| 0 <= j < s.len() ==> include_at(s, j) is None,
    ensures
        packages_resolved(s) == s,
        include_targets(packages_resolved(s)).len() == 0,
        inlined(packages_resolved(s), bodies) == s,
{
    lemma_packages_unchanged_from(s, 0);
    assert(s.subrange(0, s.len() as int) =~= s);
    lemma_inlined_unchanged_from(s, 0, bodies, 0);
}

/// The token `$(find <package>)` written with a single space.
pub open spec fn package_token(pkg: Seq<char>) -> Seq<char> {
    find_open() + seq![' '] + pkg + seq![')']
}

/// `pieces` joined with `sep` between each two.
pub open spec fn joined(pieces: Seq<Seq<char>>, sep: Seq<char>) -> Seq<char>
    decreases pieces.len(),
{
    if pieces.len() == 0 {
        Seq::empty()
    } else if pieces.len() == 1 {
        pieces[0]
    } else {
        pieces[0] + sep + joined(pieces.subrange(1, pieces.len() as int), sep)
    }
}

/// No `$(` stands in `s`.
pub open spec fn free_of_macro_start(s: Seq<char>) -> bool {
    forall|j: int| 0 <= j < s.len() - 1 ==> !(#[trigger] s[j] == '$' && s[j + 1] == '(')
}

/// A package name that `$(find <package>)` captures whole.
pub open spec fn is_package_name(pkg: Seq<char>) -> bool {
    &&& pkg.len() > 0
    &&& !is_space(pkg[0])
    &&& forall|j: int| 0 <= j < pkg.len() ==> pkg[j] != ')'
}

proof fn lemma_plain_prefix(a: Seq<char>, b: Seq<char>, i: int)
    requires
        0 <= i <= a.len(),
        free_of_macro_start(a),
        b.len() == 0 || b[0] == '$',
    ensures
        packages_resolved_from(a + b, i) == a.subrange(i, a.len() as int) + packages_resolved(b),
    decreases a.len() - i,
{
    let s = a + b;
    if i < a.len() {
        assert(package_token_at(s, i) is None) by {
            if occurs_at(s, i, find_open()) {
                assert(s[i + 0] == '$' && s[i + 1] == '(');
                if i + 1 < a.len() {
                    assert(a[i] == '$' && a[i + 1] == '(');
                } else {
                    assert(s[i + 1] == b[0]);
                }
            }
        }
        lemma_plain_prefix(a, b, i + 1);
        assert(a.subrange(i, a.len() as int) =~= seq![a[i]] + a.subrange(i + 1, a.len() as int));
        assert(seq![s[i]] + (a.subrange(i + 1, a.len() as int) + packages_resolved(b)) =~= a.subrange(
            i,
            a.len() as int,
        ) + packages_resolved(b));
    } else {
        lemma_packages_resolved_shift(s, a.len() as int, 0);
        assert(s.subrange(a.len() as int, s.len() as int) =~= b);
        assert(a.subrange(i, a.len() as int) =~= Seq::<char>::empty());
        assert(Seq::<char>::empty() + packages_resolved(b) =~= packages_resolved(b));
    }
}

proof fn lemma_token_prefix(pkg: Seq<char>, rest: Seq<char>)
    requires
        is_package_name(pkg),
    ensures
        packages_resolved(package_token(pkg) + rest) == models_prefix() + pkg + packages_resolved(
            rest,
        ),
{
    let tok = package_token(pkg);
    let s = tok + rest;
    let n = pkg.len() as int;
    assert(tok.len() == n + 8);
    assert(occurs_at(s, 0, find_open()));
    assert(space_run(s, 6) == 1) by {
        assert(s[6] == ' ');
        assert(s[7] == pkg[0]);
        assert(space_run(s, 7) == 0);
        assert(is_space(s[6]));
    }
    assert(first_index_from(s, ')', 6) == Some(n + 7)) by {
        assert forall|j: int| 6 <= j <= n + 7 implies first_index_from(s, ')', j) == Some(n + 7) by {
            lemma_first_index_walk(s, n, j);
        }
    }
    assert(package_token_at(s, 0) == Some((7int, n + 7, n + 8)));
    assert(s.subrange(7, n + 7) =~= pkg);
    lemma_packages_resolved_shift(s, n + 8, 0);
    assert(s.subrange(n + 8, s.len() as int) =~= rest);
}

proof fn lemma_first_index_walk(s: Seq<char>, n: int, j: int)
    requires
        n > 0,
        s.len() >= n + 8,
        s[n + 7] == ')',
        s[6] == ' ',
        forall|m: int| 7 <= m < n + 7 ==> s[m] != ')',
        6 <= j <= n + 7,
    ensures
        first_index_from(s, ')', j) == Some(n + 7),
    decreases n + 7 - j,
{
    if j < n + 7 {
        lemma_first_index_walk(s, n, j + 1);
    }
}

/// With the one package-path token `$(find <package>)` standing between
/// pieces of text that hold no `$(`, resolution replaces each of its
/// occurrences, however many there are, by the package's path under the
/// models root, and changes nothing else.
pub proof fn resolution_replaces_every_package_token(pieces: Seq<Seq<char>>, pkg: Seq<char>)
    requires
        is_package_name(pkg),
        forall|k: int| 0 <= k < pieces.len() ==> free_of_macro_start(#[trigger] pieces[k]),
    ensures
        packages_resolved(joined(pieces, package_token(pkg))) == joined(
            pieces,
            models_prefix() + pkg,
        ),
    decreases pieces.len(),
{
    let tok = package_token(pkg);
    let path = models_prefix() + pkg;
    if pieces.len() == 0 {
    } else if pieces.len() == 1 {
        lemma_plain_prefix(pieces[0], Seq::empty(), 0);
        assert(pieces[0] + Seq::<char>::empty() =~= pieces[0]);
        assert(pieces[0].subrange(0, pieces[0].len() as int) =~= pieces[0]);
        assert(packages_resolved(Seq::<char>::empty()) =~= Seq::<char>::empty());
        assert(pieces[0] + Seq::<char>::empty() =~= pieces[0]);
    } else {
        let rest = pieces.subrange(1, pieces.len() as int);
        assert forall|k: int| 0 <= k < rest.len() implies free_of_macro_start(#[trigger] rest[k]) by {
            assert(rest[k] == pieces[k + 1]);
        }
        resolution_replaces_every_package_token(rest, pkg);
        let tail = joined(rest, tok);
        lemma_token_prefix(pkg, tail);
        assert(tok[0] == '$');
        lemma_plain_prefix(pieces[0], tok + tail, 0);
        assert(pieces[0] + tok + tail =~= pieces[0] + (tok + tail));
        assert(pieces[0].subrange(0, pieces[0].len() as int) =~= pieces[0]);
        assert(pieces[0] + (path + packages_resolved(tail)) =~= pieces[0] + path + joined(
            rest,
            path,
        ));
    }
}

} // verus!
