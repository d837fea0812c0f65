//! The feature tree: which directories are features, the owner each one has
//! or inherits, its own file/line/TODO counts (nested features excluded) and
//! the commits that count for it.
use crate::commits::{
    commit_stats, commit_stats_ok, counts_for_feature, filter_changes, kept_changes, lower_spec,
    views, Change, CommitRecord, CommitStats,
};
use crate::dependency::Dependency;
use crate::paths::is_strictly_within;
use crate::resolver::child;
use crate::text::{chars_of, ends_with, eq_vec, starts_with, string_of};
use vstd::prelude::*;

verus! {

/// A regular file with its number of lines and of lines that mention a TODO.
#[derive(Debug, Clone)]
pub struct FileEntry {
    pub name: String,
    pub lines: usize,
    pub todos: usize,
}

/// What a directory's README or FEATURES.toml declares.
#[derive(Debug, Clone)]
pub struct Manifest {
    pub title: Option<String>,
    pub owner: String,
    pub description: String,
}

/// A directory as read from disk: its name, its manifest if any, whether its
/// README's front matter says `feature: true`, its files, its subdirectories
/// (in name order), its decision records and the commits that touched it.
#[derive(Debug)]
pub struct DirNode {
    pub name: String,
    pub manifest: Option<Manifest>,
    pub flagged: bool,
    pub files: Vec<FileEntry>,
    pub dirs: Vec<DirNode>,
    pub decisions: Vec<String>,
    pub history: Vec<CommitRecord>,
}

/// Aggregates of a feature.
#[derive(Debug, Clone)]
pub struct Stats {
    pub files_count: Option<usize>,
    pub lines_count: Option<usize>,
    pub todos_count: Option<usize>,
    pub commits: CommitStats,
}

/// A node of the feature tree.
#[derive(Debug)]
pub struct Feature {
    pub name: String,
    pub description: String,
    pub owner: String,
    pub is_owner_inherited: bool,
    pub path: String,
    pub features: Vec<Feature>,
    pub changes: Vec<Change>,
    pub decisions: Vec<String>,
    pub stats: Option<Stats>,
    pub dependencies: Vec<Dependency>,
}

/// A feature as plain values.
pub struct FNode {
    pub name: Seq<char>,
    pub description: Seq<char>,
    pub owner: Seq<char>,
    pub inherited: bool,
    /// The owner the directory itself declares (empty when none).
    pub declared: Seq<char>,
    /// The commits that touched the directory.
    pub history: Seq<CommitRecord>,
    pub path: Seq<char>,
    pub files: nat,
    pub lines: nat,
    pub todos: nat,
    pub changes: Seq<Change>,
    pub decisions: Seq<Seq<char>>,
    pub children: Seq<FNode>,
}

/// `docs`, `__docs__` or `.docs`, in any letter case.
pub open spec fn is_doc_name(n: Seq<char>) -> bool {
    let l = lower_spec(n);
    l == "docs"@ || l == "__docs__"@ || l == ".docs"@
}

/// How the scan treats a subdirectory.
#[derive(Debug, Clone, Copy, PartialEq, Eq, Structural)]
pub enum ChildKind {
    Skip,
    Feature,
    PassThrough,
}

/// How the scan treats subdirectory `c` of `d`: documentation is skipped; in a
/// feature, a README flag makes a feature (its `features` folder is searched);
/// elsewhere, so does being a direct child of a `features` folder.
pub open spec fn child_kind(d: DirNode, d_is_feature: bool, c: DirNode) -> ChildKind {
    if is_doc_name(c.name@) {
        ChildKind::Skip
    } else if d_is_feature {
        if c.name@ != "features"@ && c.flagged {
            ChildKind::Feature
        } else {
            ChildKind::PassThrough
        }
    } else if d.name@ == "features"@ || c.flagged {
        ChildKind::Feature
    } else {
        ChildKind::PassThrough
    }
}

/// `n` capped at `usize::MAX`.
pub open spec fn sat(n: nat) -> nat {
    if n > usize::MAX {
        usize::MAX as nat
    } else {
        n
    }
}

pub open spec fn file_sums(files: Seq<FileEntry>) -> (nat, nat, nat)
    decreases files.len(),
{
    if files.len() == 0 {
        (0, 0, 0)
    } else {
        let p = file_sums(files.drop_last());
        let f = files.last();
        (sat(p.0 + 1), sat(p.1 + f.lines as nat), sat(p.2 + f.todos as nat))
    }
}

pub open spec fn add3(a: (nat, nat, nat), b: (nat, nat, nat)) -> (nat, nat, nat) {
    (sat(a.0 + b.0), sat(a.1 + b.1), sat(a.2 + b.2))
}

/// The files, lines and TODOs of the subdirectories of `d` from index `i` on
/// that are neither documentation nor features, with their own such subdirectories.
pub open spec fn own_from(d: DirNode, d_is_feature: bool, i: int) -> (nat, nat, nat)
    decreases d, d.dirs@.len() - i,
{
    if i < 0 || i >= d.dirs@.len() {
        (0, 0, 0)
    } else {
        let c = d.dirs@[i];
        let here = match child_kind(d, d_is_feature, c) {
            ChildKind::PassThrough => add3(file_sums(c.files@), own_from(c, false, 0)),
            _ => (0, 0, 0),
        };
        add3(here, own_from(d, d_is_feature, i + 1))
    }
}

/// The owner a feature ends with, and whether it was inherited: its declared
/// owner, else its parent's owner when there is one, else none.
pub open spec fn effective_owner(declared: Seq<char>, parent_owner: Seq<char>) -> (Seq<char>, bool) {
    if declared.len() > 0 {
        (declared, false)
    } else if parent_owner.len() > 0 {
        (parent_owner, true)
    } else {
        (Seq::empty(), false)
    }
}

pub open spec fn declared_owner(d: DirNode) -> Seq<char> {
    match d.manifest {
        Some(m) => m.owner@,
        None => Seq::empty(),
    }
}

pub open spec fn title_of(d: DirNode) -> Seq<char> {
    match d.manifest {
        Some(m) => match m.title {
            Some(t) => t@,
            None => d.name@,
        },
        None => d.name@,
    }
}

pub open spec fn description_of(d: DirNode) -> Seq<char> {
    match d.manifest {
        Some(m) => m.description@,
        None => Seq::empty(),
    }
}

/// The repository paths of the features `ns`, under the repository prefix `rp`.
pub open spec fn nested_repo_paths(ns: Seq<FNode>, rp: Seq<char>) -> Seq<Seq<char>> {
    Seq::new(ns.len(), |k: int| child(rp, ns[k].path))
}

/// The features found in the subdirectories of `d` (at path `p`) from index
/// `i` on; `po` is the owner of the nearest enclosing feature and `rp` the
/// path of the scan root inside the repository.
pub open spec fn found_from(
    d: DirNode,
    d_is_feature: bool,
    p: Seq<char>,
    po: Seq<char>,
    rp: Seq<char>,
    i: int,
) -> Seq<FNode>
    decreases d, d.dirs@.len() - i,
{
    if i < 0 || i >= d.dirs@.len() {
        Seq::empty()
    } else {
        let c = d.dirs@[i];
        let cp = child(p, c.name@);
        let here = match child_kind(d, d_is_feature, c) {
            ChildKind::Skip => Seq::empty(),
            ChildKind::PassThrough => found_from(c, false, cp, po, rp, 0),
            ChildKind::Feature => {
                let (owner, inherited) = effective_owner(declared_owner(c), po);
                let children = found_from(c, true, cp, owner, rp, 0);
                let counts = add3(file_sums(c.files@), own_from(c, true, 0));
                seq![
                    FNode {
                        name: title_of(c),
                        description: description_of(c),
                        owner,
                        inherited,
                        declared: declared_owner(c),
                        history: c.history@,
                        path: cp,
                        files: counts.0,
                        lines: counts.1,
                        todos: counts.2,
                        changes: kept_changes(
                            c.history@,
                            child(rp, cp),
                            nested_repo_paths(children, rp),
                        ),
                        decisions: views(c.decisions@),
                        children,
                    },
                ]
            },
        };
        here + found_from(d, d_is_feature, p, po, rp, i + 1)
    }
}

/// `f` is the feature that `n` describes, down to its nested features.
pub open spec fn matches_node(f: Feature, n: FNode) -> bool
    decreases f,
{
    &&& f.name@ == n.name
    &&& f.description@ == n.description
    &&& f.owner@ == n.owner
    &&& f.is_owner_inherited == n.inherited
    &&& f.path@ == n.path
    &&& f.changes@ == n.changes
    &&& views(f.decisions@) == n.decisions
    &&& f.dependencies@.len() == 0
    &&& f.stats matches Some(s) && s.files_count == Some(n.files as usize) && s.lines_count == Some(
        n.lines as usize,
    ) && s.todos_count == Some(n.todos as usize) && commit_stats_ok(s.commits, n.changes)
    &&& matches_list(f.features@, n.children)
}

/// `fs` and `ns` pair up, element for element.
pub open spec fn matches_list(fs: Seq<Feature>, ns: Seq<FNode>) -> bool
    decreases fs,
{
    if fs.len() != ns.len() {
        false
    } else if fs.len() == 0 {
        true
    } else {
        matches_list(fs.drop_last(), ns.drop_last()) && matches_node(fs.last(), ns.last())
    }
}

pub open spec fn matches_all(fs: Seq<Feature>, ns: Seq<FNode>) -> bool {
    &&& fs.len() == ns.len()
    &&& forall|i: int| 0 <= i < fs.len() ==> #[trigger] matches_node(fs[i], ns[i])
}

pub proof fn lemma_matches_list_all(fs: Seq<Feature>, ns: Seq<FNode>)
    ensures
        matches_list(fs, ns) <==> matches_all(fs, ns),
    decreases fs.len(),
{
    if fs.len() == ns.len() && fs.len() > 0 {
        lemma_matches_list_all(fs.drop_last(), ns.drop_last());
        if matches_all(fs, ns) {
            assert forall|i: int| 0 <= i < fs.drop_last().len() implies #[trigger] matches_node(
                fs.drop_last()[i],
                ns.drop_last()[i],
            ) by {
                assert(matches_node(fs[i], ns[i]));
            }
            assert(matches_node(fs[fs.len() - 1], ns[ns.len() - 1]));
        }
        if matches_list(fs, ns) {
            assert forall|i: int| 0 <= i < fs.len() implies #[trigger] matches_node(fs[i], ns[i]) by {
                if i < fs.len() - 1 {
                    assert(matches_node(fs.drop_last()[i], ns.drop_last()[i]));
                }
            }
        }
    }
}

fn sat_add(a: usize, b: usize) -> (r: usize)
    ensures
        r as nat == sat(a as nat + b as nat),
{
    if a > usize::MAX - b {
        usize::MAX
    } else {
        a + b
    }
}

fn add3_exec(a: (usize, usize, usize), b: (usize, usize, usize)) -> (r: (usize, usize, usize))
    ensures
        (r.0 as nat, r.1 as nat, r.2 as nat) == add3(
            (a.0 as nat, a.1 as nat, a.2 as nat),
            (b.0 as nat, b.1 as nat, b.2 as nat),
        ),
{
    (sat_add(a.0, b.0), sat_add(a.1, b.1), sat_add(a.2, b.2))
}

fn file_sums_exec(files: &Vec<FileEntry>) -> (r: (usize, usize, usize))
    ensures
        (r.0 as nat, r.1 as nat, r.2 as nat) == file_sums(files@),
{
    let mut acc: (usize, usize, usize) = (0, 0, 0);
    let mut i: usize = 0;
    while i < files.len()
        invariant
            i <= files@.len(),
            (acc.0 as nat, acc.1 as nat, acc.2 as nat) == file_sums(files@.take(i as int)),
        decreases files@.len() - i,
    {
        assert(files@.take(i + 1).drop_last() =~= files@.take(i as int));
        assert(files@.take(i + 1).last() == files@[i as int]);
        let f = &files[i];
        acc = (sat_add(acc.0, 1), sat_add(acc.1, f.lines), sat_add(acc.2, f.todos));
        i = i + 1;
    }
    assert(files@.take(files@.len() as int) =~= files@);
    acc
}

fn is_doc_exec(name: &String) -> (r: bool)
    ensures
        r == is_doc_name(name@),
{
    let l = crate::commits::lower_vec(&chars_of(name.as_str()));
    eq_vec(&l, &chars_of("docs")) || eq_vec(&l, &chars_of("__docs__")) || eq_vec(
        &l,
        &chars_of(".docs"),
    )
}

fn child_kind_exec(d: &DirNode, d_is_feature: bool, c: &DirNode) -> (r: ChildKind)
    ensures
        r == child_kind(*d, d_is_feature, *c),
{
    let features = chars_of("features");
    if is_doc_exec(&c.name) {
        ChildKind::Skip
    } else if d_is_feature {
        if !eq_vec(&chars_of(c.name.as_str()), &features) && c.flagged {
            ChildKind::Feature
        } else {
            ChildKind::PassThrough
        }
    } else if eq_vec(&chars_of(d.name.as_str()), &features) || c.flagged {
        ChildKind::Feature
    } else {
        ChildKind::PassThrough
    }
}

fn own_exec(d: &DirNode, d_is_feature: bool) -> (r: (usize, usize, usize))
    ensures
        (r.0 as nat, r.1 as nat, r.2 as nat) == own_from(*d, d_is_feature, 0),
    decreases d,
{
    let mut acc: (usize, usize, usize) = (0, 0, 0);
    let mut i: usize = d.dirs.len();
    while i > 0
        invariant
            i <= d.dirs@.len(),
            (acc.0 as nat, acc.1 as nat, acc.2 as nat) == own_from(*d, d_is_feature, i as int),
        decreases i,
    {
        let c = &d.dirs[i - 1];
        let here: (usize, usize, usize) = match child_kind_exec(d, d_is_feature, c) {
            ChildKind::PassThrough => {
                assert(decreases_to!(d => d.dirs@[i - 1]));
                add3_exec(file_sums_exec(&c.files), own_exec(c, false))
            },
            _ => (0, 0, 0),
        };
        acc = add3_exec(here, acc);
        i = i - 1;
    }
    acc
}

fn copy_string(s: &String) -> (r: String)
    ensures
        r@ == s@,
{
    s.clone()
}

fn copy_strings(v: &Vec<String>) -> (r: Vec<String>)
    ensures
        views(r@) == views(v@),
{
    let mut r: Vec<String> = Vec::new();
    let mut i: usize = 0;
    while i < v.len()
        invariant
            i <= v@.len(),
            views(r@) == views(v@.take(i as int)),
        decreases v@.len() - i,
    {
        let ghost before = views(r@);
        r.push(copy_string(&v[i]));
        assert(views(r@) =~= before.push(v@[i as int]@));
        assert(views(v@.take(i + 1)) =~= views(v@.take(i as int)).push(v@[i as int]@));
        i = i + 1;
    }
    assert(v@.take(v@.len() as int) =~= v@);
    r
}

pub(crate) fn child_path(p: &String, name: &String) -> (r: String)
    ensures
        r@ == child(p@, name@),
{
    let pv = chars_of(p.as_str());
    let nv = chars_of(name.as_str());
    if pv.len() == 0 {
        copy_string(name)
    } else {
        let mut s = pv;
        s.push('/');
        let mut i: usize = 0;
        let ghost base = s@;
        while i < nv.len()
            invariant
                i <= nv@.len(),
                s@ == base + nv@.take(i as int),
            decreases nv@.len() - i,
        {
            s.push(nv[i]);
            i = i + 1;
            assert(s@ =~= base + nv@.take(i as int));
        }
        assert(nv@.take(nv@.len() as int) =~= nv@);
        assert(s@ =~= p@ + seq!['/'] + name@);
        string_of(s.as_slice())
    }
}

fn build_feature(c: &DirNode, cp: String, po: &String, rp: &String) -> (r: Feature)
    ensures
        found_from_here(*c, cp@, po@, rp@) matches Some(n) && matches_node(r, n),
    decreases c, 1nat,
{
    let declared = match &c.manifest {
        Some(m) => copy_string(&m.owner),
        None => String::new(),
    };
    let (owner, inherited) = if !declared.as_str().is_empty() {
        (declared, false)
    } else if !po.as_str().is_empty() {
        (copy_string(po), true)
    } else {
        (String::new(), false)
    };
    let children = found_exec(c, true, &cp, &owner, rp);
    let counts = add3_exec(file_sums_exec(&c.files), own_exec(c, true));
    let mut nested: Vec<String> = Vec::new();
    let mut k: usize = 0;
    while k < children.len()
        invariant
            k <= children@.len(),
            views(nested@) == nested_repo_paths(
                found_from(*c, true, cp@, owner@, rp@, 0),
                rp@,
            ).take(k as int),
            matches_all(children@, found_from(*c, true, cp@, owner@, rp@, 0)),
        decreases children@.len() - k,
    {
        assert(matches_node(children@[k as int], found_from(*c, true, cp@, owner@, rp@, 0)[k as int]));
        let ghost before = views(nested@);
        let ghost all = nested_repo_paths(found_from(*c, true, cp@, owner@, rp@, 0), rp@);
        nested.push(child_path(rp, &children[k].path));
        assert(views(nested@) =~= before.push(all[k as int]));
        assert(all.take(k + 1) =~= all.take(k as int).push(all[k as int]));
        k = k + 1;
    }
    assert(nested_repo_paths(found_from(*c, true, cp@, owner@, rp@, 0), rp@).take(
        children@.len() as int,
    ) =~= nested_repo_paths(found_from(*c, true, cp@, owner@, rp@, 0), rp@));
    let own_repo = child_path(rp, &cp);
    let changes = filter_changes(&c.history, &own_repo, &nested);
    let commits = commit_stats(&changes);
    let name = match &c.manifest {
        Some(m) => match &m.title {
            Some(t) => copy_string(t),
            None => copy_string(&c.name),
        },
        None => copy_string(&c.name),
    };
    let description = match &c.manifest {
        Some(m) => copy_string(&m.description),
        None => String::new(),
    };
    let r = Feature {
        name,
        description,
        owner,
        is_owner_inherited: inherited,
        path: cp,
        features: children,
        changes,
        decisions: copy_strings(&c.decisions),
        stats: Some(
            Stats {
                files_count: Some(counts.0),
                lines_count: Some(counts.1),
                todos_count: Some(counts.2),
                commits,
            },
        ),
        dependencies: Vec::new(),
    };
    proof {
        let n = found_from_here(*c, cp@, po@, rp@)->0;
        lemma_matches_list_all(r.features@, n.children);
        assert(matches_node(r, n));
    }
    r
}

/// The node for feature directory `c` at path `cp`, as `found_from` makes it.
pub open spec fn found_from_here(c: DirNode, cp: Seq<char>, po: Seq<char>, rp: Seq<char>) -> Option<
    FNode,
> {
    let (owner, inherited) = effective_owner(declared_owner(c), po);
    let children = found_from(c, true, cp, owner, rp, 0);
    let counts = add3(file_sums(c.files@), own_from(c, true, 0));
    Some(
        FNode {
            name: title_of(c),
            description: description_of(c),
            owner,
            inherited,
            declared: declared_owner(c),
            history: c.history@,
            path: cp,
            files: counts.0,
            lines: counts.1,
            todos: counts.2,
            changes: kept_changes(c.history@, child(rp, cp), nested_repo_paths(children, rp)),
            decisions: views(c.decisions@),
            children,
        },
    )
}

fn found_exec(d: &DirNode, d_is_feature: bool, p: &String, po: &String, rp: &String) -> (r: Vec<
    Feature,
>)
    ensures
        matches_all(r@, found_from(*d, d_is_feature, p@, po@, rp@, 0)),
    decreases d, 0nat,
{
    let mut out: Vec<Feature> = Vec::new();
    let ghost total = found_from(*d, d_is_feature, p@, po@, rp@, 0);
    let ghost mut done: Seq<FNode> = Seq::empty();
    let mut i: usize = 0;
    while i < d.dirs.len()
        invariant
            i <= d.dirs@.len(),
            total == found_from(*d, d_is_feature, p@, po@, rp@, 0),
            done + found_from(*d, d_is_feature, p@, po@, rp@, i as int) == total,
            matches_all(out@, done),
        decreases d.dirs@.len() - i,
    {
        let c = &d.dirs[i];
        assert(decreases_to!(d => d.dirs@[i as int]));
        let cp = child_path(p, &c.name);
        let ghost here: Seq<FNode>;
        match child_kind_exec(d, d_is_feature, c) {
            ChildKind::Skip => {
                proof {
                    here = Seq::empty();
                }
            },
            ChildKind::PassThrough => {
                let mut found = found_exec(c, false, &cp, po, rp);
                proof {
                    here = found_from(*c, false, cp@, po@, rp@, 0);
                }
                let ghost before = out@;
                let ghost fv = found@;
                out.append(&mut found);
                assert(matches_all(out@, done + here)) by {
                    assert forall|m: int| 0 <= m < out@.len() implies #[trigger] matches_node(
                        out@[m],
                        (done + here)[m],
                    ) by {
                        if m < before.len() {
                            assert(out@[m] == before[m]);
                        } else {
                            assert(out@[m] == fv[m - before.len()]);
                        }
                    }
                }
            },
            ChildKind::Feature => {
                let f = build_feature(c, cp, po, rp);
                proof {
                    here = seq![found_from_here(*c, cp@, po@, rp@)->0];
                }
                let ghost before = out@;
                out.push(f);
                assert(matches_all(out@, done + here)) by {
                    assert forall|m: int| 0 <= m < out@.len() implies #[trigger] matches_node(
                        out@[m],
                        (done + here)[m],
                    ) by {
                        if m < before.len() {
                            assert(out@[m] == before[m]);
                        }
                    }
                }
            },
        }
        proof {
            assert(found_from(*d, d_is_feature, p@, po@, rp@, i as int) == here + found_from(
                *d,
                d_is_feature,
                p@,
                po@,
                rp@,
                i + 1,
            ));
            done = done + here;
            assert(done + found_from(*d, d_is_feature, p@, po@, rp@, i + 1) =~= total);
        }
        i = i + 1;
    }
    assert(done =~= total);
    out
}

/// The feature tree of the directory `root`: every feature found beneath it,
/// nested as the directories are, with paths relative to `root`. `repo_prefix`
/// is the path of `root` inside its repository (the commit histories are keyed
/// by repository paths).
pub fn build_feature_tree(root: &DirNode, repo_prefix: &str) -> (r: Vec<Feature>)
    ensures
        matches_all(r@, found_from(*root, false, Seq::empty(), Seq::empty(), repo_prefix@, 0)),
{
    let p = String::new();
    let po = String::new();
    let rp = string_of(chars_of(repo_prefix).as_slice());
    found_exec(root, false, &p, &po, &rp)
}

/// Every subdirectory below `d`, from index `i` on, has a non-empty name.
pub open spec fn names_nonempty_from(d: DirNode, i: int) -> bool
    decreases d, d.dirs@.len() - i,
{
    if i < 0 || i >= d.dirs@.len() {
        true
    } else {
        d.dirs@[i].name@.len() > 0 && names_nonempty_from(d.dirs@[i], 0) && names_nonempty_from(
            d,
            i + 1,
        )
    }
}

/// Each node's path lies strictly under its parent's (`parent` for the top level).
pub open spec fn tree_nested(ns: Seq<FNode>, parent: Seq<char>) -> bool
    decreases ns,
{
    if ns.len() == 0 {
        true
    } else {
        tree_nested(ns.drop_last(), parent) && is_strictly_within(ns.last().path, parent)
            && tree_nested(ns.last().children, ns.last().path)
    }
}

/// Each node keeps the owner it declares; one that declares none takes the
/// owner of its parent (`po` for the top level) and is marked inherited when
/// that owner is not empty, and otherwise has an empty owner, not inherited.
pub open spec fn owners_inherited(ns: Seq<FNode>, po: Seq<char>) -> bool
    decreases ns,
{
    if ns.len() == 0 {
        true
    } else {
        let n = ns.last();
        &&& owners_inherited(ns.drop_last(), po)
        &&& n.declared.len() > 0 ==> n.owner == n.declared && !n.inherited
        &&& n.declared.len() == 0 && po.len() > 0 ==> n.owner == po && n.inherited
        &&& n.declared.len() == 0 && po.len() == 0 ==> n.owner.len() == 0 && !n.inherited
        &&& owners_inherited(n.children, n.owner)
    }
}

proof fn lemma_within_trans(x: Seq<char>, q: Seq<char>, p: Seq<char>)
    requires
        is_strictly_within(x, q) || x == q,
        is_strictly_within(q, p),
    ensures
        is_strictly_within(x, p),
{
    if p.len() > 0 {
        assert(q.len() > p.len()) by {
            if q.len() == p.len() {
                assert(q.subrange(0, p.len() as int) =~= q);
            }
        }
        if x != q {
            if q.len() > 0 {
                assert(x.len() >= q.len()) by {
                    if x.len() < q.len() {
                        assert(!starts_with(x, q));
                    }
                }
                assert(x.subrange(0, p.len() as int) =~= q.subrange(0, q.len() as int).subrange(
                    0,
                    p.len() as int,
                ));
                assert(x.subrange(0, q.len() as int) == q);
                assert(x.subrange(0, p.len() as int) =~= x.subrange(0, q.len() as int).subrange(
                    0,
                    p.len() as int,
                ));
                assert(starts_with(x, p));
                if !ends_with(p, "/"@) {
                    assert(q[p.len() as int] == '/');
                    assert(x[p.len() as int] == x.subrange(0, q.len() as int)[p.len() as int]);
                }
            }
        }
    } else {
        assert(q.len() > 0) by {
            if q.len() == 0 {
                assert(q =~= p);
            }
        }
        if x != q {
            assert(x.len() >= q.len());
        }
        assert(x.len() > 0);
        assert(x != p);
    }
}

proof fn lemma_child_within(p: Seq<char>, n: Seq<char>)
    requires
        n.len() > 0,
    ensures
        is_strictly_within(child(p, n), p),
{
    if p.len() > 0 {
        let c = p + seq!['/'] + n;
        assert(c.subrange(0, p.len() as int) =~= p);
        assert(c[p.len() as int] == '/');
    } else {
        assert(child(p, n) != p);
    }
}

proof fn lemma_tree_nested_concat(a: Seq<FNode>, b: Seq<FNode>, p: Seq<char>)
    requires
        tree_nested(a, p),
        tree_nested(b, p),
    ensures
        tree_nested(a + b, p),
    decreases b.len(),
{
    if b.len() == 0 {
        assert(a + b =~= a);
    } else {
        lemma_tree_nested_concat(a, b.drop_last(), p);
        assert((a + b).drop_last() =~= a + b.drop_last());
        assert((a + b).last() == b.last());
    }
}

proof fn lemma_tree_nested_widen(ns: Seq<FNode>, q: Seq<char>, p: Seq<char>)
    requires
        tree_nested(ns, q),
        is_strictly_within(q, p),
    ensures
        tree_nested(ns, p),
    decreases ns.len(),
{
    if ns.len() > 0 {
        lemma_tree_nested_widen(ns.drop_last(), q, p);
        lemma_within_trans(ns.last().path, q, p);
    }
}

proof fn lemma_owners_concat(a: Seq<FNode>, b: Seq<FNode>, po: Seq<char>)
    requires
        owners_inherited(a, po),
        owners_inherited(b, po),
    ensures
        owners_inherited(a + b, po),
    decreases b.len(),
{
    if b.len() == 0 {
        assert(a + b =~= a);
    } else {
        lemma_owners_concat(a, b.drop_last(), po);
        assert((a + b).drop_last() =~= a + b.drop_last());
        assert((a + b).last() == b.last());
    }
}

proof fn lemma_found_nested(
    d: DirNode,
    f: bool,
    p: Seq<char>,
    po: Seq<char>,
    rp: Seq<char>,
    i: int,
)
    requires
        names_nonempty_from(d, i),
    ensures
        tree_nested(found_from(d, f, p, po, rp, i), p),
    decreases d, d.dirs@.len() - i,
{
    if 0 <= i < d.dirs@.len() {
        let c = d.dirs@[i];
        let cp = child(p, c.name@);
        lemma_child_within(p, c.name@);
        lemma_found_nested(d, f, p, po, rp, i + 1);
        let here = match child_kind(d, f, c) {
            ChildKind::Skip => Seq::empty(),
            ChildKind::PassThrough => found_from(c, false, cp, po, rp, 0),
            ChildKind::Feature => seq![found_from_here(c, cp, po, rp)->0],
        };
        match child_kind(d, f, c) {
            ChildKind::Skip => {},
            ChildKind::PassThrough => {
                lemma_found_nested(c, false, cp, po, rp, 0);
                lemma_tree_nested_widen(here, cp, p);
            },
            ChildKind::Feature => {
                let (owner, inherited) = effective_owner(declared_owner(c), po);
                lemma_found_nested(c, true, cp, owner, rp, 0);
                let n = found_from_here(c, cp, po, rp)->0;
                assert(n.path == cp);
                assert(n.children == found_from(c, true, cp, owner, rp, 0));
                assert(here.drop_last() =~= Seq::<FNode>::empty());
                assert(here.last() == n);
                assert(tree_nested(here.drop_last(), p));
                assert(tree_nested(here, p));
            },
        }
        assert(found_from(d, f, p, po, rp, i) == here + found_from(d, f, p, po, rp, i + 1));
        lemma_tree_nested_concat(here, found_from(d, f, p, po, rp, i + 1), p);
    }
}

proof fn lemma_found_owners(
    d: DirNode,
    f: bool,
    p: Seq<char>,
    po: Seq<char>,
    rp: Seq<char>,
    i: int,
)
    ensures
        owners_inherited(found_from(d, f, p, po, rp, i), po),
    decreases d, d.dirs@.len() - i,
{
    if 0 <= i < d.dirs@.len() {
        let c = d.dirs@[i];
        let cp = child(p, c.name@);
        lemma_found_owners(d, f, p, po, rp, i + 1);
        let here = match child_kind(d, f, c) {
            ChildKind::Skip => Seq::empty(),
            ChildKind::PassThrough => found_from(c, false, cp, po, rp, 0),
            ChildKind::Feature => seq![found_from_here(c, cp, po, rp)->0],
        };
        match child_kind(d, f, c) {
            ChildKind::Skip => {},
            ChildKind::PassThrough => {
                lemma_found_owners(c, false, cp, po, rp, 0);
            },
            ChildKind::Feature => {
                let (owner, inherited) = effective_owner(declared_owner(c), po);
                lemma_found_owners(c, true, cp, owner, rp, 0);
                let n = found_from_here(c, cp, po, rp)->0;
                assert(n.owner == owner && n.inherited == inherited && n.declared == declared_owner(c));
                assert(n.children == found_from(c, true, cp, owner, rp, 0));
                assert(here.drop_last() =~= Seq::<FNode>::empty());
                assert(here.last() == n);
                assert(owners_inherited(here.drop_last(), po));
                assert(owners_inherited(here, po));
            },
        }
        assert(found_from(d, f, p, po, rp, i) == here + found_from(d, f, p, po, rp, i + 1));
        lemma_owners_concat(here, found_from(d, f, p, po, rp, i + 1), po);
    }
}

/// In every feature tree, each feature's path lies strictly under its parent
/// feature's path (and the top-level ones under the scan root), so no feature
/// shares its path with an ancestor or a descendant.
pub proof fn law_feature_paths_nested(root: DirNode, repo_prefix: Seq<char>)
    requires
        names_nonempty_from(root, 0),
    ensures
        tree_nested(found_from(root, false, Seq::empty(), Seq::empty(), repo_prefix, 0), Seq::empty()),
{
    lemma_found_nested(root, false, Seq::empty(), Seq::empty(), repo_prefix, 0);
}

/// In every feature tree, a feature that declares an owner keeps it, not
/// inherited; one that declares none takes the owner of its enclosing feature,
/// marked inherited, when that owner is not empty (so, down the tree, the
/// nearest declared owner of an ancestor); when no ancestor has an owner it
/// keeps an empty owner, not inherited.
pub proof fn law_owner_inheritance(root: DirNode, repo_prefix: Seq<char>)
    ensures
        owners_inherited(
            found_from(root, false, Seq::empty(), Seq::empty(), repo_prefix, 0),
            Seq::empty(),
        ),
{
    lemma_found_owners(root, false, Seq::empty(), Seq::empty(), repo_prefix, 0);
}

/// The subdirectories of `d` have non-empty names without `/`, no two alike.
pub open spec fn names_ok(d: DirNode) -> bool {
    &&& forall|i: int|
        0 <= i < d.dirs@.len() ==> (#[trigger] d.dirs@[i]).name@.len() > 0 && !d.dirs@[i].name@.contains(
            '/',
        )
    &&& forall|i: int, j: int|
        0 <= i < j < d.dirs@.len() ==> (#[trigger] d.dirs@[i]).name@ != (#[trigger] d.dirs@[j]).name@
}

/// Every directory below `d`, from subdirectory `i` on, satisfies `names_ok`.
pub open spec fn dirs_ok_from(d: DirNode, i: int) -> bool
    decreases d, d.dirs@.len() - i,
{
    if i < 0 || i >= d.dirs@.len() {
        true
    } else {
        names_ok(d.dirs@[i]) && dirs_ok_from(d.dirs@[i], 0) && dirs_ok_from(d, i + 1)
    }
}

/// A directory tree as a file system gives it.
pub open spec fn dir_tree_ok(d: DirNode) -> bool {
    names_ok(d) && dirs_ok_from(d, 0)
}

/// No two nodes of `ns` share a path, and so on down every node's children.
pub open spec fn siblings_distinct(ns: Seq<FNode>) -> bool
    decreases ns,
{
    if ns.len() == 0 {
        true
    } else {
        siblings_distinct(ns.drop_last()) && (forall|k: int|
            0 <= k < ns.len() - 1 ==> (#[trigger] ns[k]).path != ns.last().path)
            && siblings_distinct(ns.last().children)
    }
}

pub open spec fn child_offset(p: Seq<char>) -> int {
    if p.len() == 0 {
        0
    } else {
        p.len() + 1int
    }
}

proof fn lemma_child_shape(p: Seq<char>, n: Seq<char>)
    ensures
        child(p, n).len() == child_offset(p) + n.len(),
        forall|k: int| 0 <= k < n.len() ==> #[trigger] child(p, n)[child_offset(p) + k] == n[k],
        child(p, n).take(child_offset(p)) == child(p, Seq::<char>::empty()).take(child_offset(p)),
{
    if p.len() > 0 {
        assert(child(p, n).take(child_offset(p)) =~= child(p, Seq::<char>::empty()).take(
            child_offset(p),
        ));
    } else {
        assert(child(p, n).take(0) =~= child(p, Seq::<char>::empty()).take(0));
    }
}

/// Paths at or under two differently named subdirectories of `p` differ.
proof fn lemma_under_distinct_children(
    x: Seq<char>,
    y: Seq<char>,
    p: Seq<char>,
    a: Seq<char>,
    b: Seq<char>,
)
    requires
        a.len() > 0 && !a.contains('/'),
        b.len() > 0 && !b.contains('/'),
        a != b,
        x == child(p, a) || is_strictly_within(x, child(p, a)),
        y == child(p, b) || is_strictly_within(y, child(p, b)),
    ensures
        x != y,
{
    let ca = child(p, a);
    let cb = child(p, b);
    lemma_child_shape(p, a);
    lemma_child_shape(p, b);
    let off = child_offset(p);
    assert(!ends_with(ca, "/"@)) by {
        if ends_with(ca, "/"@) {
            reveal_strlit("/");
            assert(ca.subrange(ca.len() - 1, ca.len() as int)[0] == ca[ca.len() - 1]);
            assert(ca[off + (a.len() - 1)] == a[a.len() - 1]);
            assert(a.contains(a[a.len() - 1]));
        }
    }
    assert(!ends_with(cb, "/"@)) by {
        if ends_with(cb, "/"@) {
            reveal_strlit("/");
            assert(cb.subrange(cb.len() - 1, cb.len() as int)[0] == cb[cb.len() - 1]);
            assert(cb[off + (b.len() - 1)] == b[b.len() - 1]);
            assert(b.contains(b[b.len() - 1]));
        }
    }
    if x == y {
        let z = x;
        assert(z.len() >= ca.len() && z.take(ca.len() as int) == ca) by {
            if z != ca {
                assert(z.subrange(0, ca.len() as int) == ca);
            } else {
                assert(z.take(ca.len() as int) =~= z);
            }
        }
        assert(z.len() >= cb.len() && z.take(cb.len() as int) == cb) by {
            if z != cb {
                assert(z.subrange(0, cb.len() as int) == cb);
            } else {
                assert(z.take(cb.len() as int) =~= z);
            }
        }
        if a.len() == b.len() {
            assert(ca == cb);
            assert forall|k: int| 0 <= k < a.len() implies a[k] == b[k] by {
                assert(ca[off + k] == a[k]);
                assert(cb[off + k] == b[k]);
            }
            assert(a =~= b);
        } else if a.len() < b.len() {
            assert(z != ca);
            assert(z[ca.len() as int] == '/');
            assert(cb[ca.len() as int] == z.take(cb.len() as int)[ca.len() as int]);
            assert(cb[off + a.len()] == b[a.len() as int]);
            assert(b.contains(b[a.len() as int]));
        } else {
            assert(z != cb);
            assert(z[cb.len() as int] == '/');
            assert(ca[cb.len() as int] == z.take(ca.len() as int)[cb.len() as int]);
            assert(ca[off + b.len()] == a[b.len() as int]);
            assert(a.contains(a[b.len() as int]));
        }
    }
}

/// Each node of `found_from(d, f, p, po, rp, i)` lies at or under the path of
/// one of the subdirectories `i..` of `d`.
pub open spec fn under_children_from(ns: Seq<FNode>, d: DirNode, p: Seq<char>, i: int) -> bool {
    forall|k: int|
        0 <= k < ns.len() ==> exists|j: int|
            i <= j < d.dirs@.len() && ((#[trigger] ns[k]).path == child(p, d.dirs@[j].name@)
                || is_strictly_within(ns[k].path, child(p, d.dirs@[j].name@)))
}

proof fn lemma_names_nonempty(d: DirNode, i: int)
    requires
        names_ok(d),
        dirs_ok_from(d, i),
        0 <= i,
    ensures
        names_nonempty_from(d, i),
    decreases d, d.dirs@.len() - i,
{
    if i < d.dirs@.len() {
        assert(d.dirs@[i].name@.len() > 0);
        lemma_names_nonempty(d.dirs@[i], 0);
        lemma_names_nonempty(d, i + 1);
    }
}

proof fn lemma_found_distinct(
    d: DirNode,
    f: bool,
    p: Seq<char>,
    po: Seq<char>,
    rp: Seq<char>,
    i: int,
)
    requires
        names_ok(d),
        dirs_ok_from(d, i),
        0 <= i,
    ensures
        siblings_distinct(found_from(d, f, p, po, rp, i)),
        under_children_from(found_from(d, f, p, po, rp, i), d, p, i),
    decreases d, d.dirs@.len() - i,
{
    let all = found_from(d, f, p, po, rp, i);
    if i >= d.dirs@.len() {
        return;
    }
    let c = d.dirs@[i];
    let cp = child(p, c.name@);
    lemma_found_distinct(d, f, p, po, rp, i + 1);
    let rest = found_from(d, f, p, po, rp, i + 1);
    let here = match child_kind(d, f, c) {
        ChildKind::Skip => Seq::empty(),
        ChildKind::PassThrough => found_from(c, false, cp, po, rp, 0),
        ChildKind::Feature => seq![found_from_here(c, cp, po, rp)->0],
    };
    assert(all == here + rest);
    match child_kind(d, f, c) {
        ChildKind::Skip => {},
        ChildKind::PassThrough => {
            lemma_found_distinct(c, false, cp, po, rp, 0);
            lemma_names_nonempty(c, 0);
            lemma_found_nested(c, false, cp, po, rp, 0);
            lemma_nested_top(here, cp);
        },
        ChildKind::Feature => {
            let (owner, inherited) = effective_owner(declared_owner(c), po);
            lemma_found_distinct(c, true, cp, owner, rp, 0);
            let n = found_from_here(c, cp, po, rp)->0;
            assert(n.children == found_from(c, true, cp, owner, rp, 0));
            assert(here.drop_last() =~= Seq::<FNode>::empty());
            assert(here.last() == n);
            assert(siblings_distinct(here.drop_last()));
            assert(siblings_distinct(here));
        },
    }
    // Every node of `here` lies at or under `cp`.
    assert(forall|k: int|
        0 <= k < here.len() ==> (#[trigger] here[k]).path == cp || is_strictly_within(here[k].path, cp));
    assert forall|k: int| 0 <= k < here.len() implies forall|m: int|
        0 <= m < rest.len() ==> (#[trigger] here[k]).path != (#[trigger] rest[m]).path by {
        assert forall|m: int| 0 <= m < rest.len() implies (#[trigger] here[k]).path != (
        #[trigger] rest[m]).path by {
            let j = choose|j: int|
                i + 1 <= j < d.dirs@.len() && ((#[trigger] rest[m]).path == child(p, d.dirs@[j].name@)
                    || is_strictly_within(rest[m].path, child(p, d.dirs@[j].name@)));
            assert(d.dirs@[i].name@ != d.dirs@[j].name@);
            lemma_under_distinct_children(here[k].path, rest[m].path, p, c.name@, d.dirs@[j].name@);
        }
    }
    lemma_distinct_concat(here, rest);
    assert forall|k: int| 0 <= k < all.len() implies exists|j: int|
        i <= j < d.dirs@.len() && ((#[trigger] all[k]).path == child(p, d.dirs@[j].name@)
            || is_strictly_within(all[k].path, child(p, d.dirs@[j].name@))) by {
        if k < here.len() {
            assert(all[k] == here[k]);
        } else {
            assert(all[k] == rest[k - here.len()]);
            let j = choose|j: int|
                i + 1 <= j < d.dirs@.len() && ((#[trigger] rest[k - here.len()]).path == child(
                    p,
                    d.dirs@[j].name@,
                ) || is_strictly_within(rest[k - here.len()].path, child(p, d.dirs@[j].name@)));
        }
    }
}

/// The top-level nodes of a nested sequence lie strictly under its parent path.
proof fn lemma_nested_top(ns: Seq<FNode>, parent: Seq<char>)
    requires
        tree_nested(ns, parent),
    ensures
        forall|k: int| 0 <= k < ns.len() ==> is_strictly_within((#[trigger] ns[k]).path, parent),
    decreases ns.len(),
{
    if ns.len() > 0 {
        lemma_nested_top(ns.drop_last(), parent);
        assert forall|k: int| 0 <= k < ns.len() implies is_strictly_within(
            (#[trigger] ns[k]).path,
            parent,
        ) by {
            if k < ns.len() - 1 {
                assert(ns[k] == ns.drop_last()[k]);
            }
        }
    }
}

proof fn lemma_distinct_concat(a: Seq<FNode>, b: Seq<FNode>)
    requires
        siblings_distinct(a),
        siblings_distinct(b),
        forall|k: int|
            0 <= k < a.len() ==> forall|m: int|
                0 <= m < b.len() ==> (#[trigger] a[k]).path != (#[trigger] b[m]).path,
    ensures
        siblings_distinct(a + b),
    decreases b.len(),
{
    if b.len() == 0 {
        assert(a + b =~= a);
    } else {
        lemma_distinct_concat(a, b.drop_last());
        let ab = a + b;
        assert(ab.drop_last() =~= a + b.drop_last());
        assert(ab.last() == b.last());
        assert forall|k: int| 0 <= k < ab.len() - 1 implies (#[trigger] ab[k]).path != ab.last().path by {
            if k < a.len() {
                assert(ab[k] == a[k]);
                assert(a[k].path != b[b.len() - 1].path);
            } else {
                assert(ab[k] == b[k - a.len()]);
                assert(b.drop_last()[k - a.len()] == b[k - a.len()]);
            }
        }
    }
}

/// In the feature tree of a directory tree as a file system gives it (names
/// non-empty, without `/`, unique among siblings), no two sibling features
/// share a path, at any depth.
pub proof fn law_sibling_paths_distinct(root: DirNode, repo_prefix: Seq<char>)
    requires
        dir_tree_ok(root),
    ensures
        siblings_distinct(found_from(root, false, Seq::empty(), Seq::empty(), repo_prefix, 0)),
{
    lemma_found_distinct(root, false, Seq::empty(), Seq::empty(), repo_prefix, 0);
}

/// `d1` and `d2` hold the same files and subdirectories, from subdirectory `i`
/// on, except inside subdirectories that the scan makes features (and inside
/// skipped documentation folders); that holds recursively in the others.
pub open spec fn same_outside_features(d1: DirNode, d2: DirNode, f: bool, i: int) -> bool
    decreases d1, d1.dirs@.len() - i,
{
    if i < 0 || i >= d1.dirs@.len() {
        d1.dirs@.len() == d2.dirs@.len()
    } else {
        &&& d1.dirs@.len() == d2.dirs@.len()
        &&& child_kind(d1, f, d1.dirs@[i]) == child_kind(d2, f, d2.dirs@[i])
        &&& child_kind(d1, f, d1.dirs@[i]) == ChildKind::PassThrough ==> d1.dirs@[i].files@
            == d2.dirs@[i].files@ && same_outside_features(d1.dirs@[i], d2.dirs@[i], false, 0)
        &&& same_outside_features(d1, d2, f, i + 1)
    }
}

proof fn lemma_own_counts_ignore_features(d1: DirNode, d2: DirNode, f: bool, i: int)
    requires
        same_outside_features(d1, d2, f, i),
    ensures
        own_from(d1, f, i) == own_from(d2, f, i),
    decreases d1, d1.dirs@.len() - i,
{
    if 0 <= i < d1.dirs@.len() {
        lemma_own_counts_ignore_features(d1, d2, f, i + 1);
        if child_kind(d1, f, d1.dirs@[i]) == ChildKind::PassThrough {
            lemma_own_counts_ignore_features(d1.dirs@[i], d2.dirs@[i], false, 0);
        }
    }
}

/// A feature's file, line and TODO counts never include what its nested
/// features hold: two feature directories with the same own files that differ
/// only inside nested features (and documentation folders) get the same counts.
pub proof fn law_nested_features_not_counted(c1: DirNode, c2: DirNode)
    requires
        c1.files@ == c2.files@,
        same_outside_features(c1, c2, true, 0),
    ensures
        add3(file_sums(c1.files@), own_from(c1, true, 0)) == add3(
            file_sums(c2.files@),
            own_from(c2, true, 0),
        ),
{
    lemma_own_counts_ignore_features(c1, c2, true, 0);
}

/// The paths of all nodes of `ns`, at every depth.
pub open spec fn all_paths(ns: Seq<FNode>) -> Seq<Seq<char>>
    decreases ns,
{
    if ns.len() == 0 {
        Seq::empty()
    } else {
        all_paths(ns.drop_last()) + seq![ns.last().path] + all_paths(ns.last().children)
    }
}

proof fn lemma_all_paths_concat(a: Seq<FNode>, b: Seq<FNode>)
    ensures
        all_paths(a + b) == all_paths(a) + all_paths(b),
    decreases b.len(),
{
    if b.len() == 0 {
        assert(a + b =~= a);
        assert(all_paths(a) + all_paths(b) =~= all_paths(a));
    } else {
        lemma_all_paths_concat(a, b.drop_last());
        assert((a + b).drop_last() =~= a + b.drop_last());
        assert((a + b).last() == b.last());
        assert(all_paths(a + b) =~= all_paths(a) + all_paths(b));
    }
}

proof fn lemma_all_paths_under(ns: Seq<FNode>, q: Seq<char>)
    requires
        tree_nested(ns, q),
    ensures
        forall|k: int| 0 <= k < all_paths(ns).len() ==> is_strictly_within(#[trigger] all_paths(ns)[k], q),
    decreases ns,
{
    if ns.len() > 0 {
        let last = ns.last();
        lemma_all_paths_under(ns.drop_last(), q);
        lemma_all_paths_under(last.children, last.path);
        let a = all_paths(ns.drop_last());
        let c = all_paths(last.children);
        assert(all_paths(ns) == a + seq![last.path] + c);
        assert forall|k: int| 0 <= k < all_paths(ns).len() implies is_strictly_within(
            #[trigger] all_paths(ns)[k],
            q,
        ) by {
            if k < a.len() {
                assert(all_paths(ns)[k] == a[k]);
            } else if k == a.len() {
                assert(all_paths(ns)[k] == last.path);
            } else {
                assert(all_paths(ns)[k] == c[k - a.len() - 1]);
                lemma_within_trans(c[k - a.len() - 1], last.path, q);
            }
        }
    }
}

proof fn lemma_no_dup_concat(a: Seq<Seq<char>>, b: Seq<Seq<char>>)
    requires
        a.no_duplicates(),
        b.no_duplicates(),
        forall|i: int, j: int| 0 <= i < a.len() && 0 <= j < b.len() ==> a[i] != b[j],
    ensures
        (a + b).no_duplicates(),
{
    assert forall|i: int, j: int| 0 <= i < (a + b).len() && 0 <= j < (a + b).len() && i != j implies (a
        + b)[i] != (a + b)[j] by {
        if i < a.len() && j >= a.len() {
            assert((a + b)[j] == b[j - a.len()]);
        } else if i >= a.len() && j < a.len() {
            assert((a + b)[i] == b[i - a.len()]);
        } else if i >= a.len() && j >= a.len() {
            assert((a + b)[i] == b[i - a.len()]);
            assert((a + b)[j] == b[j - a.len()]);
        }
    }
}

/// Every path of `ps` lies at or under the path of a subdirectory `i..` of `d`.
pub open spec fn paths_under_children(ps: Seq<Seq<char>>, d: DirNode, p: Seq<char>, i: int) -> bool {
    forall|k: int|
        0 <= k < ps.len() ==> exists|j: int|
            i <= j < d.dirs@.len() && ((#[trigger] ps[k]) == child(p, d.dirs@[j].name@)
                || is_strictly_within(ps[k], child(p, d.dirs@[j].name@)))
}

proof fn lemma_found_all_distinct(
    d: DirNode,
    f: bool,
    p: Seq<char>,
    po: Seq<char>,
    rp: Seq<char>,
    i: int,
)
    requires
        names_ok(d),
        dirs_ok_from(d, i),
        0 <= i,
    ensures
        all_paths(found_from(d, f, p, po, rp, i)).no_duplicates(),
        paths_under_children(all_paths(found_from(d, f, p, po, rp, i)), d, p, i),
    decreases d, d.dirs@.len() - i,
{
    let all = found_from(d, f, p, po, rp, i);
    if i >= d.dirs@.len() {
        assert(all_paths(all) =~= Seq::<Seq<char>>::empty());
        return;
    }
    let c = d.dirs@[i];
    let cp = child(p, c.name@);
    lemma_found_all_distinct(d, f, p, po, rp, i + 1);
    let rest = found_from(d, f, p, po, rp, i + 1);
    let here = match child_kind(d, f, c) {
        ChildKind::Skip => Seq::empty(),
        ChildKind::PassThrough => found_from(c, false, cp, po, rp, 0),
        ChildKind::Feature => seq![found_from_here(c, cp, po, rp)->0],
    };
    assert(all == here + rest);
    lemma_all_paths_concat(here, rest);
    let hp = all_paths(here);
    let rpaths = all_paths(rest);
    match child_kind(d, f, c) {
        ChildKind::Skip => {
            assert(hp =~= Seq::<Seq<char>>::empty());
        },
        ChildKind::PassThrough => {
            lemma_found_all_distinct(c, false, cp, po, rp, 0);
            lemma_names_nonempty(c, 0);
            lemma_found_nested(c, false, cp, po, rp, 0);
            lemma_all_paths_under(here, cp);
        },
        ChildKind::Feature => {
            let (owner, inherited) = effective_owner(declared_owner(c), po);
            let kids = found_from(c, true, cp, owner, rp, 0);
            lemma_found_all_distinct(c, true, cp, owner, rp, 0);
            lemma_names_nonempty(c, 0);
            lemma_found_nested(c, true, cp, owner, rp, 0);
            lemma_all_paths_under(kids, cp);
            let n = found_from_here(c, cp, po, rp)->0;
            assert(n.children == kids && n.path == cp);
            assert(here.drop_last() =~= Seq::<FNode>::empty());
            assert(here.last() == n);
            assert(all_paths(here.drop_last()) =~= Seq::<Seq<char>>::empty());
            assert(hp =~= seq![cp] + all_paths(kids));
            assert(seq![cp].no_duplicates());
            lemma_no_dup_concat(seq![cp], all_paths(kids));
        },
    }
    lemma_child_within(p, c.name@);
    assert forall|k: int| 0 <= k < hp.len() implies (#[trigger] hp[k]) == cp || is_strictly_within(
        hp[k],
        cp,
    ) by {
        if child_kind(d, f, c) == ChildKind::Feature {
            let (owner, inherited) = effective_owner(declared_owner(c), po);
            let kids = found_from(c, true, cp, owner, rp, 0);
            if k > 0 {
                assert(hp[k] == all_paths(kids)[k - 1]);
            }
        }
    }
    assert forall|a: int, b: int| 0 <= a < hp.len() && 0 <= b < rpaths.len() implies hp[a]
        != rpaths[b] by {
        let j = choose|j: int|
            i + 1 <= j < d.dirs@.len() && ((#[trigger] rpaths[b]) == child(p, d.dirs@[j].name@)
                || is_strictly_within(rpaths[b], child(p, d.dirs@[j].name@)));
        assert(d.dirs@[i].name@ != d.dirs@[j].name@);
        assert(hp[a] == cp || is_strictly_within(hp[a], cp));
        lemma_under_distinct_children(hp[a], rpaths[b], p, c.name@, d.dirs@[j].name@);
    }
    lemma_no_dup_concat(hp, rpaths);
    assert forall|k: int| 0 <= k < all_paths(all).len() implies exists|j: int|
        i <= j < d.dirs@.len() && ((#[trigger] all_paths(all)[k]) == child(p, d.dirs@[j].name@)
            || is_strictly_within(all_paths(all)[k], child(p, d.dirs@[j].name@))) by {
        if k < hp.len() {
            assert(all_paths(all)[k] == hp[k]);
            assert(hp[k] == cp || is_strictly_within(hp[k], cp));
        } else {
            assert(all_paths(all)[k] == rpaths[k - hp.len()]);
            let j = choose|j: int|
                i + 1 <= j < d.dirs@.len() && ((#[trigger] rpaths[k - hp.len()]) == child(
                    p,
                    d.dirs@[j].name@,
                ) || is_strictly_within(rpaths[k - hp.len()], child(p, d.dirs@[j].name@)));
        }
    }
}

/// In the feature tree of a directory tree as a file system gives it, the
/// paths of all features, at every depth, are pairwise distinct: no feature
/// shares its path with a sibling, an ancestor, a descendant or any other.
pub proof fn law_all_feature_paths_distinct(root: DirNode, repo_prefix: Seq<char>)
    requires
        dir_tree_ok(root),
    ensures
        all_paths(found_from(root, false, Seq::empty(), Seq::empty(), repo_prefix, 0)).no_duplicates(),
{
    lemma_found_all_distinct(root, false, Seq::empty(), Seq::empty(), repo_prefix, 0);
}

/// Each node's changes are the commits of its directory's history that count
/// for it against the repository paths of its nested features, at every depth.
pub open spec fn changes_attributed(ns: Seq<FNode>, rp: Seq<char>) -> bool
    decreases ns,
{
    if ns.len() == 0 {
        true
    } else {
        let n = ns.last();
        &&& changes_attributed(ns.drop_last(), rp)
        &&& n.changes == kept_changes(n.history, child(rp, n.path), nested_repo_paths(n.children, rp))
        &&& changes_attributed(n.children, rp)
    }
}

proof fn lemma_attributed_concat(a: Seq<FNode>, b: Seq<FNode>, rp: Seq<char>)
    requires
        changes_attributed(a, rp),
        changes_attributed(b, rp),
    ensures
        changes_attributed(a + b, rp),
    decreases b.len(),
{
    if b.len() == 0 {
        assert(a + b =~= a);
    } else {
        lemma_attributed_concat(a, b.drop_last(), rp);
        assert((a + b).drop_last() =~= a + b.drop_last());
        assert((a + b).last() == b.last());
    }
}

proof fn lemma_found_attributed(
    d: DirNode,
    f: bool,
    p: Seq<char>,
    po: Seq<char>,
    rp: Seq<char>,
    i: int,
)
    ensures
        changes_attributed(found_from(d, f, p, po, rp, i), rp),
    decreases d, d.dirs@.len() - i,
{
    if 0 <= i < d.dirs@.len() {
        let c = d.dirs@[i];
        let cp = child(p, c.name@);
        lemma_found_attributed(d, f, p, po, rp, i + 1);
        let here = match child_kind(d, f, c) {
            ChildKind::Skip => Seq::empty(),
            ChildKind::PassThrough => found_from(c, false, cp, po, rp, 0),
            ChildKind::Feature => seq![found_from_here(c, cp, po, rp)->0],
        };
        match child_kind(d, f, c) {
            ChildKind::Skip => {},
            ChildKind::PassThrough => {
                lemma_found_attributed(c, false, cp, po, rp, 0);
            },
            ChildKind::Feature => {
                let (owner, inherited) = effective_owner(declared_owner(c), po);
                lemma_found_attributed(c, true, cp, owner, rp, 0);
                let n = found_from_here(c, cp, po, rp)->0;
                assert(n.children == found_from(c, true, cp, owner, rp, 0));
                assert(here.drop_last() =~= Seq::<FNode>::empty());
                assert(here.last() == n);
                assert(changes_attributed(here.drop_last(), rp));
                assert(changes_attributed(here, rp));
            },
        }
        assert(found_from(d, f, p, po, rp, i) == here + found_from(d, f, p, po, rp, i + 1));
        lemma_attributed_concat(here, found_from(d, f, p, po, rp, i + 1), rp);
    }
}

/// `x` is the change of a commit of `records` that counts for the feature.
pub open spec fn from_counting_record(
    records: Seq<CommitRecord>,
    feature: Seq<char>,
    nested: Seq<Seq<char>>,
    x: Change,
) -> bool {
    exists|i: int|
        0 <= i < records.len() && records[i].change == x && counts_for_feature(
            views(records[i].affected@),
            feature,
            nested,
        )
}

/// The changes kept for a feature are exactly those of the commits that count
/// for it: each kept change is that of a counting commit, and every counting
/// commit's change is kept.
pub proof fn lemma_kept_changes_members(records: Seq<CommitRecord>, feature: Seq<char>, nested: Seq<Seq<char>>)
    ensures
        forall|k: int|
            0 <= k < kept_changes(records, feature, nested).len() ==> from_counting_record(
                records,
                feature,
                nested,
                #[trigger] kept_changes(records, feature, nested)[k],
            ),
        forall|i: int|
            0 <= i < records.len() && counts_for_feature(views(records[i].affected@), feature, nested)
                ==> kept_changes(records, feature, nested).contains(#[trigger] records[i].change),
    decreases records.len(),
{
    if records.len() > 0 {
        let prev = records.drop_last();
        lemma_kept_changes_members(prev, feature, nested);
        let kp = kept_changes(prev, feature, nested);
        let kc = kept_changes(records, feature, nested);
        assert forall|k: int| 0 <= k < kc.len() implies from_counting_record(
            records,
            feature,
            nested,
            #[trigger] kc[k],
        ) by {
            if k < kp.len() {
                assert(kc[k] == kp[k]);
                assert(from_counting_record(prev, feature, nested, kp[k]));
                let i = choose|i: int|
                    0 <= i < prev.len() && prev[i].change == kp[k] && counts_for_feature(
                        views(prev[i].affected@),
                        feature,
                        nested,
                    );
                assert(records[i] == prev[i]);
            } else {
                assert(records[records.len() - 1] == records.last());
                assert(kc == kp.push(records.last().change));
                assert(kc[k] == records[records.len() - 1].change);
                assert(counts_for_feature(views(records[records.len() - 1].affected@), feature, nested));
            }
        }
        assert forall|i: int|
            0 <= i < records.len() && counts_for_feature(views(records[i].affected@), feature, nested)
                implies kc.contains(#[trigger] records[i].change) by {
            if i < records.len() - 1 {
                assert(records[i] == prev[i]);
                assert(kp.contains(prev[i].change));
                let k = choose|k: int| 0 <= k < kp.len() && kp[k] == prev[i].change;
                assert(kc[k] == kp[k]);
            } else {
                assert(kc[kc.len() - 1] == records.last().change);
            }
        }
    }
}

/// In every feature tree, each feature's changes are the commits of its
/// directory's history that touched one of its files outside all of its
/// nested features (see `lemma_kept_changes_members` and
/// `law_nested_only_commits_excluded`), at every depth.
pub proof fn law_changes_exclude_nested_features(root: DirNode, repo_prefix: Seq<char>)
    ensures
        changes_attributed(
            found_from(root, false, Seq::empty(), Seq::empty(), repo_prefix, 0),
            repo_prefix,
        ),
{
    lemma_found_attributed(root, false, Seq::empty(), Seq::empty(), repo_prefix, 0);
}

} // verus!
