//! Import path resolution against the index of the project's files: relative
//! imports, Rust module paths and slash-separated paths, each probed in a
//! fixed order. All paths are POSIX paths relative to the scan root.
use crate::commits::views;
use crate::paths::{parent_spec, parent_vec};
use crate::text::{
    chars_of, contains_spec, eq_vec, find_vec, slice, split_chars, split_spec, starts_with,
    starts_with_vec, string_of, suffix, vviews,
};
use vstd::prelude::*;

verus! {

/// `c/name`, or `name` alone when `c` is the root.
pub open spec fn child(c: Seq<char>, name: Seq<char>) -> Seq<char> {
    if c.len() == 0 {
        name
    } else {
        c + seq!['/'] + name
    }
}

/// The segments of a path with `.` and empty segments dropped and each `..`
/// taking back the segment before it; `None` when a `..` would leave the root.
pub open spec fn normalize_segments(segs: Seq<Seq<char>>) -> Option<Seq<Seq<char>>>
    decreases segs.len(),
{
    if segs.len() == 0 {
        Some(Seq::empty())
    } else {
        match normalize_segments(segs.drop_last()) {
            None => None,
            Some(acc) => {
                let x = segs.last();
                if x.len() == 0 || x == "."@ {
                    Some(acc)
                } else if x == ".."@ {
                    if acc.len() == 0 {
                        None
                    } else {
                        Some(acc.drop_last())
                    }
                } else {
                    Some(acc.push(x))
                }
            },
        }
    }
}

/// The segments joined with `/`.
pub open spec fn join_segments(segs: Seq<Seq<char>>) -> Seq<char>
    decreases segs.len(),
{
    if segs.len() == 0 {
        Seq::empty()
    } else if segs.len() == 1 {
        segs[0]
    } else {
        join_segments(segs.drop_last()) + seq!['/'] + segs.last()
    }
}

/// `import` taken from the directory `dir`, normalized; `None` when it leaves the root.
pub open spec fn relative_target(dir: Seq<char>, import: Seq<char>) -> Option<Seq<char>> {
    match normalize_segments(split_spec(dir, '/') + split_spec(import, '/')) {
        Some(s) => Some(join_segments(s)),
        None => None,
    }
}

pub open spec fn index_name(i: int) -> Seq<char> {
    if i == 0 {
        "index"@
    } else if i == 1 {
        "mod"@
    } else {
        "__init__"@
    }
}

pub open spec fn index_ext(i: int) -> Seq<char> {
    if i == 0 {
        "ts"@
    } else if i == 1 {
        "tsx"@
    } else if i == 2 {
        "js"@
    } else if i == 3 {
        "jsx"@
    } else if i == 4 {
        "rs"@
    } else {
        "py"@
    }
}

/// The suffixes tried on a relative import, the bare path first.
pub open spec fn relative_ext(i: int) -> Seq<char> {
    if i == 0 {
        ""@
    } else if i == 1 {
        ".ts"@
    } else if i == 2 {
        ".tsx"@
    } else if i == 3 {
        ".js"@
    } else if i == 4 {
        ".jsx"@
    } else if i == 5 {
        ".rs"@
    } else if i == 6 {
        ".py"@
    } else if i == 7 {
        ".go"@
    } else if i == 8 {
        ".java"@
    } else if i == 9 {
        ".rb"@
    } else {
        ".php"@
    }
}

/// The source extensions tried on a slash-separated import.
pub open spec fn source_ext(i: int) -> Seq<char> {
    if i == 0 {
        "ts"@
    } else if i == 1 {
        "tsx"@
    } else if i == 2 {
        "js"@
    } else if i == 3 {
        "jsx"@
    } else if i == 4 {
        "rs"@
    } else if i == 5 {
        "py"@
    } else if i == 6 {
        "go"@
    } else if i == 7 {
        "java"@
    } else if i == 8 {
        "rb"@
    } else {
        "php"@
    }
}

/// The `i`-th index file of directory `c` (`index`, `mod`, `__init__`, each
/// with `ts`, `tsx`, `js`, `jsx`, `rs`, `py`).
pub open spec fn index_probe(c: Seq<char>, i: int) -> Seq<char> {
    child(c, index_name(i / 6) + "."@ + index_ext(i % 6))
}

/// `c` names a directory: the scan root, or a path that some file lies under.
pub open spec fn is_directory(c: Seq<char>, files: Seq<Seq<char>>) -> bool {
    c.len() == 0 || exists|i: int| 0 <= i < files.len() && starts_with(#[trigger] files[i], c + seq!['/'])
}

pub open spec fn relative_probe_count(dir: bool) -> int {
    if dir {
        18
    } else {
        11
    }
}

/// The `k`-th file tried for a relative import resolved to `c`: the index files
/// of `c` when `c` is a directory, else `c` with each suffix in turn (the bare
/// path first).
pub open spec fn relative_probe(c: Seq<char>, dir: bool, k: int) -> Seq<char> {
    if dir {
        index_probe(c, k)
    } else {
        c + relative_ext(k)
    }
}

pub open spec fn path_probe_count() -> int {
    29
}

/// The `k`-th file tried for a slash-separated import `p`: `p` itself, `p`
/// with each source extension, then the index files of `p`.
pub open spec fn path_probe(p: Seq<char>, k: int) -> Seq<char> {
    if k == 0 {
        p
    } else if k <= 10 {
        p + "."@ + source_ext(k - 1)
    } else {
        index_probe(p, k - 11)
    }
}

/// The first probe from `k` on that names a file of `files`.
pub open spec fn first_probe_from(
    probes: spec_fn(int) -> Seq<char>,
    n: int,
    files: Seq<Seq<char>>,
    k: int,
) -> Option<Seq<char>>
    decreases n - k,
{
    if k < 0 || k >= n {
        None
    } else if files.contains(probes(k)) {
        Some(probes(k))
    } else {
        first_probe_from(probes, n, files, k + 1)
    }
}

/// `::` turned into `/` (a Rust module path as a file path).
pub open spec fn module_to_path(s: Seq<char>) -> Seq<char>
    decreases s.len(),
{
    if s.len() == 0 {
        s
    } else if s.len() >= 2 && s[0] == ':' && s[1] == ':' {
        seq!['/'] + module_to_path(s.subrange(2, s.len() as int))
    } else {
        seq![s[0]] + module_to_path(s.drop_first())
    }
}

/// A module file `m.rs`, else `m/mod.rs`.
pub open spec fn module_file(m: Seq<char>, files: Seq<Seq<char>>) -> Option<Seq<char>> {
    if files.contains(m + ".rs"@) {
        Some(m + ".rs"@)
    } else if files.contains(m + "/mod.rs"@) {
        Some(m + "/mod.rs"@)
    } else {
        None
    }
}

/// The file that an import names, given the importing file, the project's
/// files and the Rust source root (`src` or `<dir>/src`), if any.
pub open spec fn resolve_spec(
    import: Seq<char>,
    source: Seq<char>,
    files: Seq<Seq<char>>,
    src_root: Option<Seq<char>>,
) -> Option<Seq<char>> {
    let dir = parent_spec(source);
    if starts_with(import, "."@) {
        match relative_target(dir, import) {
            Some(c) => first_probe_from(
                |k: int| relative_probe(c, is_directory(c, files), k),
                relative_probe_count(is_directory(c, files)),
                files,
                0,
            ),
            None => None,
        }
    } else if contains_spec(import, "::"@) {
        if starts_with(import, "crate::"@) || starts_with(import, "self::"@) {
            let rest = if starts_with(import, "crate::"@) {
                import.subrange(7, import.len() as int)
            } else {
                import.subrange(6, import.len() as int)
            };
            match src_root {
                Some(root) => module_file(child(root, module_to_path(rest)), files),
                None => None,
            }
        } else if starts_with(import, "super::"@) {
            if dir.len() == 0 {
                None
            } else {
                module_file(
                    child(parent_spec(dir), module_to_path(import.subrange(7, import.len() as int))),
                    files,
                )
            }
        } else {
            None
        }
    } else if contains_spec(import, "/"@) {
        first_probe_from(|k: int| path_probe(import, k), path_probe_count(), files, 0)
    } else {
        None
    }
}

fn concat(a: &Vec<char>, b: &Vec<char>) -> (r: Vec<char>)
    ensures
        r@ == a@ + b@,
{
    let mut r = slice(a, 0, a.len());
    let mut i: usize = 0;
    while i < b.len()
        invariant
            i <= b@.len(),
            r@ == a@ + b@.take(i as int),
        decreases b@.len() - i,
    {
        r.push(b[i]);
        i = i + 1;
        assert(r@ =~= a@ + b@.take(i as int));
    }
    assert(b@.take(b@.len() as int) =~= b@);
    r
}

fn concat_lit(a: &Vec<char>, lit: &str) -> (r: Vec<char>)
    ensures
        r@ == a@ + lit@,
{
    concat(a, &chars_of(lit))
}

fn child_vec(c: &Vec<char>, name: &Vec<char>) -> (r: Vec<char>)
    ensures
        r@ == child(c@, name@),
{
    if c.len() == 0 {
        slice(name, 0, name.len())
    } else {
        let mut s = slice(c, 0, c.len());
        s.push('/');
        assert(s@ =~= c@ + seq!['/']);
        concat(&s, name)
    }
}

fn index_name_str(i: usize) -> (r: &'static str)
    ensures
        r@ == index_name(i as int),
{
    if i == 0 {
        "index"
    } else if i == 1 {
        "mod"
    } else {
        "__init__"
    }
}

fn index_ext_str(i: usize) -> (r: &'static str)
    ensures
        r@ == index_ext(i as int),
{
    if i == 0 {
        "ts"
    } else if i == 1 {
        "tsx"
    } else if i == 2 {
        "js"
    } else if i == 3 {
        "jsx"
    } else if i == 4 {
        "rs"
    } else {
        "py"
    }
}

fn relative_ext_str(i: usize) -> (r: &'static str)
    ensures
        r@ == relative_ext(i as int),
{
    if i == 0 {
        ""
    } else if i == 1 {
        ".ts"
    } else if i == 2 {
        ".tsx"
    } else if i == 3 {
        ".js"
    } else if i == 4 {
        ".jsx"
    } else if i == 5 {
        ".rs"
    } else if i == 6 {
        ".py"
    } else if i == 7 {
        ".go"
    } else if i == 8 {
        ".java"
    } else if i == 9 {
        ".rb"
    } else {
        ".php"
    }
}

fn source_ext_str(i: usize) -> (r: &'static str)
    ensures
        r@ == source_ext(i as int),
{
    if i == 0 {
        "ts"
    } else if i == 1 {
        "tsx"
    } else if i == 2 {
        "js"
    } else if i == 3 {
        "jsx"
    } else if i == 4 {
        "rs"
    } else if i == 5 {
        "py"
    } else if i == 6 {
        "go"
    } else if i == 7 {
        "java"
    } else if i == 8 {
        "rb"
    } else {
        "php"
    }
}

fn index_probe_vec(c: &Vec<char>, i: usize) -> (r: Vec<char>)
    requires
        i < 18,
    ensures
        r@ == index_probe(c@, i as int),
{
    let name = concat_lit(&concat_lit(&chars_of(index_name_str(i / 6)), "."), index_ext_str(i % 6));
    child_vec(c, &name)
}

fn relative_probe_vec(c: &Vec<char>, dir: bool, k: usize) -> (r: Vec<char>)
    requires
        k < relative_probe_count(dir),
    ensures
        r@ == relative_probe(c@, dir, k as int),
{
    if dir {
        index_probe_vec(c, k)
    } else {
        concat_lit(c, relative_ext_str(k))
    }
}

fn path_probe_vec(p: &Vec<char>, k: usize) -> (r: Vec<char>)
    requires
        k < 29,
    ensures
        r@ == path_probe(p@, k as int),
{
    if k == 0 {
        slice(p, 0, p.len())
    } else if k <= 10 {
        concat_lit(&concat_lit(p, "."), source_ext_str(k - 1))
    } else {
        index_probe_vec(p, k - 11)
    }
}

/// Whether `files` holds the path `p`.
pub fn has_file(files: &Vec<String>, p: &Vec<char>) -> (r: bool)
    ensures
        r == views(files@).contains(p@),
{
    let mut i: usize = 0;
    while i < files.len()
        invariant
            i <= files@.len(),
            forall|j: int| 0 <= j < i ==> files@[j]@ != p@,
        decreases files@.len() - i,
    {
        if eq_vec(&chars_of(files[i].as_str()), p) {
            assert(views(files@)[i as int] == p@);
            return true;
        }
        i = i + 1;
    }
    assert forall|j: int| 0 <= j < views(files@).len() implies views(files@)[j] != p@ by {
        assert(views(files@)[j] == files@[j]@);
    }
    false
}

/// Whether `c` names a directory of the listed files.
fn is_directory_exec(c: &Vec<char>, files: &Vec<String>) -> (r: bool)
    ensures
        r == is_directory(c@, views(files@)),
{
    if c.len() == 0 {
        return true;
    }
    let mut cs = slice(c, 0, c.len());
    cs.push('/');
    assert(cs@ =~= c@ + seq!['/']);
    let mut i: usize = 0;
    while i < files.len()
        invariant
            i <= files@.len(),
            cs@ == c@ + seq!['/'],
            forall|j: int| 0 <= j < i ==> !starts_with(#[trigger] views(files@)[j], c@ + seq!['/']),
        decreases files@.len() - i,
    {
        assert(views(files@)[i as int] == files@[i as int]@);
        if starts_with_vec(&chars_of(files[i].as_str()), &cs) {
            return true;
        }
        i = i + 1;
    }
    false
}

fn probe_relative(c: &Vec<char>, files: &Vec<String>) -> (r: Option<Vec<char>>)
    ensures
        match r {
            Some(p) => first_probe_from(
                |k: int| relative_probe(c@, is_directory(c@, views(files@)), k),
                relative_probe_count(is_directory(c@, views(files@))),
                views(files@),
                0,
            ) == Some(p@),
            None => first_probe_from(
                |k: int| relative_probe(c@, is_directory(c@, views(files@)), k),
                relative_probe_count(is_directory(c@, views(files@))),
                views(files@),
                0,
            ) is None,
        },
{
    let dir = is_directory_exec(c, files);
    let n: usize = if dir {
        18
    } else {
        11
    };
    let ghost probes = |k: int| relative_probe(c@, dir, k);
    let near = files_under(files, c);
    let mut k: usize = 0;
    while k < n
        invariant
            k <= n,
            n == relative_probe_count(dir),
            dir == is_directory(c@, views(files@)),
            probes == (|k: int| relative_probe(c@, dir, k)),
            forall|x: Seq<char>|
                #[trigger] views(near@).contains(x) <==> views(files@).contains(x) && starts_with(
                    x,
                    c@,
                ),
            first_probe_from(probes, n as int, views(files@), 0) == first_probe_from(
                probes,
                n as int,
                views(files@),
                k as int,
            ),
        decreases n - k,
    {
        let p = relative_probe_vec(c, dir, k);
        proof {
            lemma_relative_probe_prefix(c@, dir, k as int);
        }
        if has_file(&near, &p) {
            return Some(p);
        }
        k = k + 1;
    }
    None
}

proof fn lemma_prefix_trans(x: Seq<char>, y: Seq<char>, z: Seq<char>)
    requires
        starts_with(x, y),
        starts_with(y, z),
    ensures
        starts_with(x, z),
{
    assert(x.subrange(0, z.len() as int) =~= x.subrange(0, y.len() as int).subrange(
        0,
        z.len() as int,
    ));
}

proof fn lemma_child_prefix(c: Seq<char>, n: Seq<char>)
    ensures
        starts_with(child(c, n), c),
{
    if c.len() > 0 {
        assert(child(c, n).subrange(0, c.len() as int) =~= c);
    } else {
        assert(child(c, n).subrange(0, 0) =~= c);
    }
}

/// Every file tried for a relative import resolved to `c` lies under `c`.
proof fn lemma_relative_probe_prefix(c: Seq<char>, dir: bool, k: int)
    requires
        0 <= k < relative_probe_count(dir),
    ensures
        starts_with(relative_probe(c, dir, k), c),
{
    if dir {
        lemma_child_prefix(c, index_name(k / 6) + "."@ + index_ext(k % 6));
    } else {
        assert((c + relative_ext(k)).subrange(0, c.len() as int) =~= c);
    }
}

/// The files that start with `c`.
fn files_under(files: &Vec<String>, c: &Vec<char>) -> (r: Vec<String>)
    ensures
        forall|x: Seq<char>|
            #[trigger] views(r@).contains(x) <==> views(files@).contains(x) && starts_with(x, c@),
{
    let mut r: Vec<String> = Vec::new();
    let mut i: usize = 0;
    while i < files.len()
        invariant
            i <= files@.len(),
            forall|x: Seq<char>|
                #[trigger] views(r@).contains(x) <==> views(files@).take(i as int).contains(x)
                    && starts_with(x, c@),
        decreases files@.len() - i,
    {
        let ghost before = views(r@);
        let ghost seen = views(files@).take(i as int);
        let ghost now = views(files@).take(i + 1);
        assert(now =~= seen.push(files@[i as int]@));
        if starts_with_vec(&chars_of(files[i].as_str()), c) {
            r.push(files[i].clone());
            assert(views(r@) =~= before.push(files@[i as int]@));
            assert forall|x: Seq<char>| #[trigger] views(r@).contains(x) <==> now.contains(x) && starts_with(x, c@) by {
                if views(r@).contains(x) {
                    let m = choose|m: int| 0 <= m < views(r@).len() && views(r@)[m] == x;
                    if m < before.len() {
                        assert(before[m] == x);
                        assert(before.contains(x));
                        let w = choose|w: int| 0 <= w < seen.len() && seen[w] == x;
                        assert(now[w] == x);
                    } else {
                        assert(now[i as int] == x);
                    }
                }
                if now.contains(x) && starts_with(x, c@) {
                    let w = choose|w: int| 0 <= w < i + 1 && now[w] == x;
                    if w < i {
                        assert(seen[w] == x);
                        assert(before.contains(x));
                        let m = choose|m: int| 0 <= m < before.len() && before[m] == x;
                        assert(views(r@)[m] == x);
                    } else {
                        assert(views(r@)[before.len() as int] == x);
                    }
                }
            }
        } else {
            assert forall|x: Seq<char>| #[trigger] views(r@).contains(x) <==> now.contains(x) && starts_with(x, c@) by {
                if views(r@).contains(x) {
                    let w = choose|w: int| 0 <= w < seen.len() && seen[w] == x;
                    assert(now[w] == x);
                }
                if now.contains(x) && starts_with(x, c@) {
                    let w = choose|w: int| 0 <= w < i + 1 && now[w] == x;
                    if w < i {
                        assert(seen[w] == x);
                    } else {
                        assert(x == files@[i as int]@);
                    }
                }
            }
        }
        i = i + 1;
    }
    assert(views(files@).take(files@.len() as int) =~= views(files@));
    r
}

fn probe_path(imp: &Vec<char>, files: &Vec<String>) -> (r: Option<Vec<char>>)
    ensures
        match r {
            Some(p) => first_probe_from(
                |k: int| path_probe(imp@, k),
                path_probe_count(),
                views(files@),
                0,
            ) == Some(p@),
            None => first_probe_from(
                |k: int| path_probe(imp@, k),
                path_probe_count(),
                views(files@),
                0,
            ) is None,
        },
{
    let ghost probes = |k: int| path_probe(imp@, k);
    let mut k: usize = 0;
    while k < 29
        invariant
            k <= 29,
            probes == (|k: int| path_probe(imp@, k)),
            first_probe_from(probes, 29, views(files@), 0) == first_probe_from(
                probes,
                29,
                views(files@),
                k as int,
            ),
        decreases 29 - k,
    {
        let p = path_probe_vec(imp, k);
        if has_file(files, &p) {
            return Some(p);
        }
        k = k + 1;
    }
    None
}

/// Once a prefix leaves the root, so does the whole path.
proof fn lemma_normalize_none_extends(segs: Seq<Seq<char>>, i: int)
    requires
        0 <= i <= segs.len(),
        normalize_segments(segs.take(i)) is None,
    ensures
        normalize_segments(segs) is None,
    decreases segs.len() - i,
{
    if i == segs.len() {
        assert(segs.take(i) =~= segs);
    } else {
        assert(segs.take(i + 1).drop_last() =~= segs.take(i));
        lemma_normalize_none_extends(segs, i + 1);
    }
}

fn normalize_vec(segs: &Vec<Vec<char>>) -> (r: Option<Vec<Vec<char>>>)
    ensures
        match r {
            Some(s) => normalize_segments(vviews(segs@)) == Some(vviews(s@)),
            None => normalize_segments(vviews(segs@)) is None,
        },
{
    let mut acc: Vec<Vec<char>> = Vec::new();
    let mut i: usize = 0;
    let dot = chars_of(".");
    let dotdot = chars_of("..");
    assert(vviews(segs@).take(0) =~= Seq::<Seq<char>>::empty());
    assert(vviews(acc@) =~= Seq::<Seq<char>>::empty());
    while i < segs.len()
        invariant
            i <= segs@.len(),
            dot@ == "."@,
            dotdot@ == ".."@,
            normalize_segments(vviews(segs@).take(i as int)) == Some(vviews(acc@)),
        decreases segs@.len() - i,
    {
        let ghost prev = vviews(acc@);
        assert(vviews(segs@).take(i + 1).drop_last() =~= vviews(segs@).take(i as int));
        assert(vviews(segs@).take(i + 1).last() == segs@[i as int]@);
        let x = &segs[i];
        if x.len() == 0 || eq_vec(x, &dot) {
        } else if eq_vec(x, &dotdot) {
            if acc.len() == 0 {
                proof {
                    lemma_normalize_none_extends(vviews(segs@), i + 1);
                }
                return None;
            }
            acc.pop();
            assert(vviews(acc@) =~= prev.drop_last());
        } else {
            let y = slice(x, 0, x.len());
            assert(y@ =~= x@);
            acc.push(y);
            assert(vviews(acc@) =~= prev.push(segs@[i as int]@));
        }
        i = i + 1;
    }
    assert(vviews(segs@).take(segs@.len() as int) =~= vviews(segs@));
    Some(acc)
}

pub(crate) fn join_vec(segs: &Vec<Vec<char>>) -> (r: Vec<char>)
    ensures
        r@ == join_segments(vviews(segs@)),
{
    if segs.len() == 0 {
        return Vec::new();
    }
    let mut acc = slice(&segs[0], 0, segs[0].len());
    let mut i: usize = 1;
    assert(vviews(segs@).take(1) =~= seq![segs@[0]@]);
    while i < segs.len()
        invariant
            1 <= i <= segs@.len(),
            acc@ == join_segments(vviews(segs@).take(i as int)),
        decreases segs@.len() - i,
    {
        assert(vviews(segs@).take(i + 1).drop_last() =~= vviews(segs@).take(i as int));
        assert(vviews(segs@).take(i + 1).last() == segs@[i as int]@);
        acc.push('/');
        let ghost before = acc@;
        acc = concat(&acc, &segs[i]);
        i = i + 1;
    }
    assert(vviews(segs@).take(segs@.len() as int) =~= vviews(segs@));
    acc
}

fn append_segs(a: Vec<Vec<char>>, b: Vec<Vec<char>>) -> (r: Vec<Vec<char>>)
    ensures
        vviews(r@) == vviews(a@) + vviews(b@),
{
    let mut r = a;
    let mut b = b;
    let ghost a0 = vviews(r@);
    let ghost b0 = vviews(b@);
    let mut rest: Vec<Vec<char>> = Vec::new();
    while b.len() > 0
        invariant
            vviews(b@) + vviews(rest@).reverse() == b0,
            vviews(r@) == a0,
        decreases b@.len(),
    {
        let x = b.pop().unwrap();
        let ghost before = vviews(rest@);
        rest.push(x);
        assert(vviews(rest@).reverse() =~= seq![x@] + before.reverse());
        assert(vviews(b@).push(x@) =~= vviews(b@) + seq![x@]);
    }
    assert(vviews(b@) =~= Seq::<Seq<char>>::empty());
    while rest.len() > 0
        invariant
            vviews(r@) + vviews(rest@).reverse() == a0 + b0,
        decreases rest@.len(),
    {
        let ghost before = vviews(rest@);
        let x = rest.pop().unwrap();
        assert(before.reverse() =~= seq![x@] + vviews(rest@).reverse());
        r.push(x);
        assert(vviews(r@) + vviews(rest@).reverse() =~= a0 + b0);
    }
    assert(vviews(rest@) =~= Seq::<Seq<char>>::empty());
    assert(vviews(r@) =~= a0 + b0);
    r
}

fn module_path_vec(s: &Vec<char>) -> (r: Vec<char>)
    ensures
        r@ == module_to_path(s@),
{
    let n = s.len();
    let mut out: Vec<char> = Vec::new();
    let mut i: usize = 0;
    assert(s@.subrange(0, n as int) =~= s@);
    while i < n
        invariant
            i <= n == s@.len(),
            out@ + module_to_path(s@.subrange(i as int, n as int)) == module_to_path(s@),
        decreases n - i,
    {
        let ghost rest = s@.subrange(i as int, n as int);
        if i + 1 < n && s[i] == ':' && s[i + 1] == ':' {
            assert(rest.subrange(2, rest.len() as int) =~= s@.subrange(i + 2, n as int));
            out.push('/');
            i = i + 2;
        } else {
            assert(rest.drop_first() =~= s@.subrange(i + 1, n as int));
            out.push(s[i]);
            i = i + 1;
        }
        assert(out@ + module_to_path(s@.subrange(i as int, n as int)) =~= module_to_path(s@));
    }
    assert(out@ =~= module_to_path(s@)) by {
        assert(s@.subrange(n as int, n as int) =~= Seq::<char>::empty());
    }
    out
}

fn module_file_vec(m: &Vec<char>, files: &Vec<String>) -> (r: Option<Vec<char>>)
    ensures
        match r {
            Some(p) => module_file(m@, views(files@)) == Some(p@),
            None => module_file(m@, views(files@)) is None,
        },
{
    let a = concat_lit(m, ".rs");
    if has_file(files, &a) {
        return Some(a);
    }
    let b = concat_lit(m, "/mod.rs");
    if has_file(files, &b) {
        return Some(b);
    }
    None
}

fn resolve_chars(
    imp: &Vec<char>,
    source: &Vec<char>,
    files: &Vec<String>,
    src_root: Option<Vec<char>>,
) -> (r: Option<Vec<char>>)
    ensures
        match r {
            Some(p) => resolve_spec(
                imp@,
                source@,
                views(files@),
                match src_root {
                    Some(v) => Some(v@),
                    None => None,
                },
            ) == Some(p@),
            None => resolve_spec(
                imp@,
                source@,
                views(files@),
                match src_root {
                    Some(v) => Some(v@),
                    None => None,
                },
            ) is None,
        },
{
    let dir = parent_vec(source);
    let n = imp.len();
    proof {
        reveal_strlit("crate::");
        reveal_strlit("self::");
        reveal_strlit("super::");
    }
    if starts_with_vec(imp, &chars_of(".")) {
        let segs = append_segs(split_chars(&dir, '/'), split_chars(imp, '/'));
        match normalize_vec(&segs) {
            Some(norm) => {
                let c = join_vec(&norm);
                probe_relative(&c, files)
            },
            None => None,
        }
    } else if find_vec(imp, &chars_of("::")).is_some() {
        if starts_with_vec(imp, &chars_of("crate::")) || starts_with_vec(imp, &chars_of("self::")) {
            let rest = if starts_with_vec(imp, &chars_of("crate::")) {
                suffix(imp, 7)
            } else {
                suffix(imp, 6)
            };
            match src_root {
                Some(root) => module_file_vec(&child_vec(&root, &module_path_vec(&rest)), files),
                None => None,
            }
        } else if starts_with_vec(imp, &chars_of("super::")) {
            if dir.len() == 0 {
                None
            } else {
                let up = parent_vec(&dir);
                module_file_vec(&child_vec(&up, &module_path_vec(&suffix(imp, 7))), files)
            }
        } else {
            None
        }
    } else if find_vec(imp, &chars_of("/")).is_some() {
        probe_path(imp, files)
    } else {
        None
    }
}

/// The project file (relative to the scan root) that `import_path`, found in
/// `source_file`, names; `None` for imports that name no file of `files`.
/// `src_root` is the Rust source directory that `crate::` paths start from.
pub fn resolve_import_path(
    import_path: &str,
    source_file: &str,
    files: &Vec<String>,
    src_root: Option<&str>,
) -> (r: Option<String>)
    ensures
        match r {
            Some(p) => resolve_spec(
                import_path@,
                source_file@,
                views(files@),
                match src_root {
                    Some(v) => Some(v@),
                    None => None,
                },
            ) == Some(p@),
            None => resolve_spec(
                import_path@,
                source_file@,
                views(files@),
                match src_root {
                    Some(v) => Some(v@),
                    None => None,
                },
            ) is None,
        },
{
    let root = match src_root {
        Some(s) => Some(chars_of(s)),
        None => None,
    };
    match resolve_chars(&chars_of(import_path), &chars_of(source_file), files, root) {
        Some(v) => Some(string_of(v.as_slice())),
        None => None,
    }
}

} // verus!
