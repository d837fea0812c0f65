//! POSIX-style paths as character sequences: containment by whole
//! components, the file name, its extension and the parent directory.
use crate::text::{
    chars_of, ends_with, ends_with_vec, eq_vec, matches_at, slice, starts_with, string_of,
};
use vstd::prelude::*;

verus! {

/// `p` lies at or under `base`, comparing whole components (as `Path::starts_with`
/// does on normalized paths): `features/api` does not contain `features/api-v2`.
pub open spec fn is_within(p: Seq<char>, base: Seq<char>) -> bool {
    base.len() == 0 || p == base || (starts_with(p, base) && (ends_with(base, "/"@) || (p.len()
        > base.len() && p[base.len() as int] == '/')))
}

/// `p` lies strictly under `base`.
pub open spec fn is_strictly_within(p: Seq<char>, base: Seq<char>) -> bool {
    is_within(p, base) && p != base
}

/// The index of the last `c` in `s`, if any.
pub open spec fn last_index_of(s: Seq<char>, c: char) -> Option<int>
    decreases s.len(),
{
    if s.len() == 0 {
        None
    } else if s.last() == c {
        Some(s.len() - 1)
    } else {
        last_index_of(s.drop_last(), c)
    }
}

/// The last component of a path.
pub open spec fn file_name_spec(p: Seq<char>) -> Seq<char> {
    match last_index_of(p, '/') {
        Some(i) => p.subrange(i + 1, p.len() as int),
        None => p,
    }
}

/// The directory part of a path (empty for a bare name).
pub open spec fn parent_spec(p: Seq<char>) -> Seq<char> {
    match last_index_of(p, '/') {
        Some(i) => p.take(i),
        None => Seq::empty(),
    }
}

/// `Path::extension`: what follows the last `.` of the file name, unless that
/// `.` opens the name.
pub open spec fn extension_spec(p: Seq<char>) -> Seq<char> {
    let n = file_name_spec(p);
    match last_index_of(n, '.') {
        Some(i) => if i > 0 {
            n.subrange(i + 1, n.len() as int)
        } else {
            Seq::empty()
        },
        None => Seq::empty(),
    }
}

pub proof fn lemma_last_index_bounds(s: Seq<char>, c: char)
    ensures
        match last_index_of(s, c) {
            Some(i) => 0 <= i < s.len() && s[i] == c,
            None => true,
        },
    decreases s.len(),
{
    if s.len() > 0 && s.last() != c {
        lemma_last_index_bounds(s.drop_last(), c);
    }
}

pub fn last_index(v: &Vec<char>, c: char) -> (r: Option<usize>)
    ensures
        match r {
            Some(i) => last_index_of(v@, c) == Some(i as int) && i < v@.len(),
            None => last_index_of(v@, c) is None,
        },
{
    let mut j: usize = v.len();
    assert(v@.take(j as int) =~= v@);
    while j > 0
        invariant
            j <= v@.len(),
            last_index_of(v@, c) == last_index_of(v@.take(j as int), c),
        decreases j,
    {
        if v[j - 1] == c {
            return Some(j - 1);
        }
        assert(v@.take(j as int).drop_last() =~= v@.take(j - 1));
        j = j - 1;
    }
    None
}

pub fn within_vec(p: &Vec<char>, base: &Vec<char>) -> (r: bool)
    ensures
        r == is_within(p@, base@),
{
    if base.len() == 0 || eq_vec(p, base) {
        return true;
    }
    if !matches_at(p, base, 0) {
        return false;
    }
    ends_with_vec(base, &chars_of("/")) || (p.len() > base.len() && p[base.len()] == '/')
}

/// Whether `path` lies at or under `base`, by whole components.
pub fn path_starts_with(path: &str, base: &str) -> (r: bool)
    ensures
        r == is_within(path@, base@),
{
    within_vec(&chars_of(path), &chars_of(base))
}

pub fn file_name_vec(p: &Vec<char>) -> (r: Vec<char>)
    ensures
        r@ == file_name_spec(p@),
{
    let n = p.len();
    match last_index(p, '/') {
        Some(i) => slice(p, i + 1, n),
        None => slice(p, 0, p.len()),
    }
}

pub fn parent_vec(p: &Vec<char>) -> (r: Vec<char>)
    ensures
        r@ == parent_spec(p@),
{
    match last_index(p, '/') {
        Some(i) => slice(p, 0, i),
        None => Vec::new(),
    }
}

pub fn extension_vec(p: &Vec<char>) -> (r: Vec<char>)
    ensures
        r@ == extension_spec(p@),
{
    let n = file_name_vec(p);
    let len = n.len();
    match last_index(&n, '.') {
        Some(i) => if i > 0 {
            slice(&n, i + 1, len)
        } else {
            Vec::new()
        },
        None => Vec::new(),
    }
}

/// The extension of the file a path names (`""` when there is none).
pub fn file_extension(path: &str) -> (r: String)
    ensures
        r@ == extension_spec(path@),
{
    let e = extension_vec(&chars_of(path));
    string_of(e.as_slice())
}

} // verus!
