//! Choice of the main macro-description file of a model directory.
use vstd::prelude::*;
use crate::text::{occurs_at, occurs_at_exec};

verus! {

/// Position of the last `.` of `name` at or before `i`.
pub open spec fn last_dot_upto(name: Seq<char>, i: int) -> Option<int>
    decreases i + 1,
{
    if i < 0 || i >= name.len() {
        None
    } else if name[i] == '.' {
        Some(i)
    } else {
        last_dot_upto(name, i - 1)
    }
}

/// Where a file name splits into stem and extension: at its last `.`,
/// unless that `.` is the first character (`.xacro` has no extension).
pub open spec fn extension_dot(name: Seq<char>) -> Option<int> {
    match last_dot_upto(name, name.len() - 1) {
        Some(k) => if k > 0 {
            Some(k)
        } else {
            None
        },
        None => None,
    }
}

pub open spec fn contains(s: Seq<char>, p: Seq<char>) -> bool {
    exists|i: int| #[trigger] occurs_at(s, i, p)
}

pub open spec fn xacro_word() -> Seq<char> {
    seq!['x', 'a', 'c', 'r', 'o']
}

pub open spec fn materials_word() -> Seq<char> {
    seq!['m', 'a', 't', 'e', 'r', 'i', 'a', 'l', 's']
}

pub open spec fn trans_word() -> Seq<char> {
    seq!['t', 'r', 'a', 'n', 's']
}

/// A file name that can be the main description: its extension is `xacro`
/// and its stem names neither material nor transmission fragments.
pub open spec fn is_main_candidate(name: Seq<char>) -> bool {
    match extension_dot(name) {
        Some(k) => {
            let stem = name.subrange(0, k);
            &&& name.subrange(k + 1, name.len() as int) == xacro_word()
            &&& !contains(stem, materials_word())
            &&& !contains(stem, trans_word())
        },
        None => false,
    }
}

fn last_dot_exec(name: &Vec<char>) -> (r: Option<usize>)
    ensures
        r matches Some(k) ==> last_dot_upto(name@, name@.len() - 1) == Some(k as int) && k
            < name.len(),
        r is None ==> last_dot_upto(name@, name@.len() - 1) is None,
{
    let mut i: usize = name.len();
    while i > 0
        invariant
            i <= name.len(),
            last_dot_upto(name@, name@.len() - 1) == last_dot_upto(name@, i - 1),
        decreases i,
    {
        if name[i - 1] == '.' {
            return Some(i - 1);
        }
        i = i - 1;
    }
    None
}

fn contains_exec(s: &Vec<char>, p: &Vec<char>) -> (r: bool)
    ensures
        r == contains(s@, p@),
{
    let mut i: usize = 0;
    while i < s.len()
        invariant
            i <= s.len(),
            forall|j: int| 0 <= j < i ==> !occurs_at(s@, j, p@),
        decreases s.len() - i,
    {
        if occurs_at_exec(s, i, p) {
            return true;
        }
        i = i + 1;
    }
    if occurs_at_exec(s, i, p) {
        return true;
    }
    assert forall|j: int| !occurs_at(s@, j, p@) by {
        if occurs_at(s@, j, p@) {
            assert(0 <= j <= s@.len());
        }
    }
    false
}

fn subrange_chars(s: &Vec<char>, a: usize, b: usize) -> (r: Vec<char>)
    requires
        a <= b <= s.len(),
    ensures
        r@ == s@.subrange(a as int, b as int),
{
    let mut r: Vec<char> = Vec::new();
    crate::text::push_range(&mut r, s, a, b);
    r
}

pub fn is_main_candidate_exec(name: &Vec<char>) -> (r: bool)
    ensures
        r == is_main_candidate(name@),
{
    match last_dot_exec(name) {
        Some(k) => {
            if k == 0 {
                return false;
            }
            let ext = subrange_chars(name, k + 1, name.len());
            let xacro = vec!['x', 'a', 'c', 'r', 'o'];
            assert(xacro@ =~= xacro_word());
            if ext.len() != xacro.len() || !occurs_at_exec(&ext, 0, &xacro) {
                proof {
                    if ext@ == xacro_word() {
                        assert(occurs_at(ext@, 0, xacro@));
                    }
                }
                return false;
            }
            assert(ext@ =~= xacro_word());
            let stem = subrange_chars(name, 0, k);
            let materials = vec!['m', 'a', 't', 'e', 'r', 'i', 'a', 'l', 's'];
            assert(materials@ =~= materials_word());
            let trans = vec!['t', 'r', 'a', 'n', 's'];
            assert(trans@ =~= trans_word());
            !contains_exec(&stem, &materials) && !contains_exec(&stem, &trans)
        },
        None => false,
    }
}

/// Index of the main description among the file names of a model directory,
/// listed in walk order: the first candidate, if any.
pub fn select_main_file(names: &Vec<Vec<char>>) -> (r: Option<usize>)
    ensures
        r matches Some(i) ==> i < names.len() && is_main_candidate(names@[i as int]@) && forall|
            j: int,
        | 0 <= j < i ==> !is_main_candidate(#[trigger] names@[j]@),
        r is None ==> forall|j: int| 0 <= j < names.len() ==> !is_main_candidate(#[trigger] names@[j]@),
{
    let mut i: usize = 0;
    while i < names.len()
        invariant
            i <= names.len(),
            forall|j: int| 0 <= j < i ==> !is_main_candidate(#[trigger] names@[j]@),
        decreases names.len() - i,
    {
        if is_main_candidate_exec(&names[i]) {
            return Some(i);
        }
        i = i + 1;
    }
    None
}

} // verus!
