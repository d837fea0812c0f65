//! Dependencies between features: the owner of a file, the relation between
//! two features, and the dependency edges that one feature's imports make.
use crate::commits::views;
use crate::import_detector::ImportStatement;
use crate::paths::{is_strictly_within, is_within, within_vec};
use crate::resolver::{resolve_import_path, resolve_spec};
use crate::text::{chars_of, eq_vec, starts_with, string_of};
use vstd::prelude::*;

verus! {

/// How the target feature of a dependency relates to the source feature.
#[derive(Debug, Clone, Copy, PartialEq, Eq, Structural)]
pub enum DependencyType {
    Parent,
    Child,
    Sibling,
}

/// An import in one feature of a file that belongs to another feature.
#[derive(Debug, Clone)]
pub struct Dependency {
    pub source_filename: String,
    pub target_filename: String,
    pub line: usize,
    pub content: String,
    pub feature_path: String,
    pub dependency_type: DependencyType,
}

/// A dependency as plain values: source file, target file, line, line text,
/// target feature and relation.
pub type DepView = (Seq<char>, Seq<char>, usize, Seq<char>, Seq<char>, DependencyType);

impl View for Dependency {
    type V = DepView;

    open spec fn view(&self) -> DepView {
        (
            self.source_filename@,
            self.target_filename@,
            self.line,
            self.content@,
            self.feature_path@,
            self.dependency_type,
        )
    }
}

/// `Child` when the target lies at or under the source, `Parent` when the
/// source lies under the target, `Sibling` otherwise.
pub open spec fn dependency_type_spec(source: Seq<char>, target: Seq<char>) -> DependencyType {
    if is_within(target, source) {
        DependencyType::Child
    } else if is_within(source, target) {
        DependencyType::Parent
    } else {
        DependencyType::Sibling
    }
}

/// The relation of the feature at `target_feature_path` to the one at `source_feature_path`.
pub fn determine_dependency_type(source_feature_path: &str, target_feature_path: &str) -> (r:
    DependencyType)
    ensures
        r == dependency_type_spec(source_feature_path@, target_feature_path@),
{
    let s = chars_of(source_feature_path);
    let t = chars_of(target_feature_path);
    if within_vec(&t, &s) {
        DependencyType::Child
    } else if within_vec(&s, &t) {
        DependencyType::Parent
    } else {
        DependencyType::Sibling
    }
}

/// A feature nested under another depends on it as its `Parent`, and the outer
/// one on it as its `Child`; features neither of which contains the other are
/// `Sibling`s both ways.
pub proof fn law_dependency_type_relations(outer: Seq<char>, inner: Seq<char>, other: Seq<char>)
    ensures
        is_strictly_within(inner, outer) ==> dependency_type_spec(outer, inner)
            == DependencyType::Child && dependency_type_spec(inner, outer)
            == DependencyType::Parent,
        !is_within(other, outer) && !is_within(outer, other) ==> dependency_type_spec(outer, other)
            == DependencyType::Sibling && dependency_type_spec(other, outer)
            == DependencyType::Sibling,
{
    if is_strictly_within(inner, outer) {
        if outer.len() > 0 {
            assert(inner.len() > outer.len()) by {
                if inner.len() == outer.len() {
                    assert(inner.subrange(0, outer.len() as int) =~= inner);
                }
            }
        } else {
            assert(inner.len() > 0) by {
                if inner.len() == 0 {
                    assert(inner =~= outer);
                }
            }
        }
        assert(!starts_with(outer, inner));
        assert(!is_within(outer, inner));
    }
}

/// A feature of the tree as the dependency pass sees it.
#[derive(Debug, Clone)]
pub struct FeatureInfo {
    pub name: String,
    pub path: String,
}

/// The most specific feature whose directory holds `file`: among the paths of
/// `features[..n]` that strictly contain it, the first of greatest length.
pub open spec fn owner_from(features: Seq<Seq<char>>, file: Seq<char>, n: int) -> Option<
    Seq<char>,
>
    decreases n,
{
    if n <= 0 {
        None
    } else {
        let prev = owner_from(features, file, n - 1);
        let f = features[n - 1];
        if is_strictly_within(file, f) && (prev is None || f.len() > prev->0.len()) {
            Some(f)
        } else {
            prev
        }
    }
}

pub open spec fn owner_spec(features: Seq<Seq<char>>, file: Seq<char>) -> Option<Seq<char>> {
    owner_from(features, file, features.len() as int)
}

/// The path of the feature that owns `file`: the longest feature path that
/// contains it, so that files of a nested feature belong to that feature.
pub fn owning_feature(feature_paths: &Vec<String>, file: &str) -> (r: Option<String>)
    ensures
        match r {
            Some(p) => owner_spec(views(feature_paths@), file@) == Some(p@),
            None => owner_spec(views(feature_paths@), file@) is None,
        },
{
    let f = chars_of(file);
    let mut best: Option<usize> = None;
    let mut best_len: usize = 0;
    let mut i: usize = 0;
    while i < feature_paths.len()
        invariant
            i <= feature_paths@.len(),
            f@ == file@,
            match best {
                Some(b) => b < i && owner_from(views(feature_paths@), file@, i as int) == Some(
                    feature_paths@[b as int]@,
                ) && best_len == feature_paths@[b as int]@.len(),
                None => owner_from(views(feature_paths@), file@, i as int) is None,
            },
        decreases feature_paths@.len() - i,
    {
        let p = chars_of(feature_paths[i].as_str());
        assert(views(feature_paths@)[i as int] == feature_paths@[i as int]@);
        if within_vec(&f, &p) && !eq_vec(&f, &p) && (best.is_none() || p.len() > best_len) {
            best = Some(i);
            best_len = p.len();
        }
        i = i + 1;
    }
    match best {
        Some(b) => Some(feature_paths[b].clone()),
        None => None,
    }
}

/// The edge that one import makes, before duplicates are dropped: the import
/// must resolve to a file whose owner is another known feature.
pub open spec fn candidate_dependency(
    imp: ImportStatement,
    feature: Seq<char>,
    files: Seq<Seq<char>>,
    src_root: Option<Seq<char>>,
    features: Seq<Seq<char>>,
) -> Option<DepView> {
    match resolve_spec(imp.imported_path@, imp.file_path@, files, src_root) {
        Some(t) => match owner_spec(features, t) {
            Some(f) => if f == feature {
                None
            } else {
                Some(
                    (
                        imp.file_path@,
                        t,
                        imp.line_number,
                        imp.line_content@,
                        f,
                        dependency_type_spec(feature, f),
                    ),
                )
            },
            None => None,
        },
        None => None,
    }
}

/// Two edges are the same when target file, line and target feature agree.
pub open spec fn same_edge(a: DepView, b: DepView) -> bool {
    a.1 == b.1 && a.2 == b.2 && a.4 == b.4
}

/// The edges of `imports`, in order, each kept unless an equal edge came first.
pub open spec fn dependencies_spec(
    imports: Seq<ImportStatement>,
    feature: Seq<char>,
    files: Seq<Seq<char>>,
    src_root: Option<Seq<char>>,
    features: Seq<Seq<char>>,
) -> Seq<DepView>
    decreases imports.len(),
{
    if imports.len() == 0 {
        Seq::empty()
    } else {
        let prev = dependencies_spec(imports.drop_last(), feature, files, src_root, features);
        match candidate_dependency(imports.last(), feature, files, src_root, features) {
            Some(d) => if exists|k: int| 0 <= k < prev.len() && same_edge(#[trigger] prev[k], d) {
                prev
            } else {
                prev.push(d)
            },
            None => prev,
        }
    }
}

pub open spec fn dep_views(v: Seq<Dependency>) -> Seq<DepView> {
    v.map_values(|d: Dependency| d@)
}

pub open spec fn opt_views(o: Option<&str>) -> Option<Seq<char>> {
    match o {
        Some(s) => Some(s@),
        None => None,
    }
}

fn str_eq(a: &String, b: &String) -> (r: bool)
    ensures
        r == (a@ == b@),
{
    eq_vec(&chars_of(a.as_str()), &chars_of(b.as_str()))
}

/// The outgoing edges of the feature at `feature_path`: each import is
/// resolved against `files`, the owner of the target is looked up among
/// `feature_paths`, edges into the feature itself and repeated edges are dropped.
pub fn resolve_feature_dependencies(
    feature_path: &str,
    imports: &Vec<ImportStatement>,
    feature_paths: &Vec<String>,
    files: &Vec<String>,
    src_root: Option<&str>,
) -> (r: Vec<Dependency>)
    ensures
        dep_views(r@) == dependencies_spec(
            imports@,
            feature_path@,
            views(files@),
            opt_views(src_root),
            views(feature_paths@),
        ),
{
    let own = string_of(chars_of(feature_path).as_slice());
    let mut deps: Vec<Dependency> = Vec::new();
    let mut i: usize = 0;
    while i < imports.len()
        invariant
            i <= imports@.len(),
            own@ == feature_path@,
            dep_views(deps@) == dependencies_spec(
                imports@.take(i as int),
                feature_path@,
                views(files@),
                opt_views(src_root),
                views(feature_paths@),
            ),
        decreases imports@.len() - i,
    {
        let imp = &imports[i];
        assert(imports@.take(i + 1).drop_last() =~= imports@.take(i as int));
        assert(imports@.take(i + 1).last() == imports@[i as int]);
        let ghost prev = dep_views(deps@);
        match resolve_import_path(imp.imported_path.as_str(), imp.file_path.as_str(), files, src_root) {
            Some(target) => match owning_feature(feature_paths, target.as_str()) {
                Some(f) => {
                    if !str_eq(&f, &own) {
                        let kind = determine_dependency_type(feature_path, f.as_str());
                        let ghost d: DepView = (
                            imp.file_path@,
                            target@,
                            imp.line_number,
                            imp.line_content@,
                            f@,
                            kind,
                        );
                        let mut seen = false;
                        let mut k: usize = 0;
                        while k < deps.len()
                            invariant
                                k <= deps@.len(),
                                prev == dep_views(deps@),
                                d == (
                                    imp.file_path@,
                                    target@,
                                    imp.line_number,
                                    imp.line_content@,
                                    f@,
                                    kind,
                                ),
                                !seen ==> forall|m: int| 0 <= m < k ==> !same_edge(prev[m], d),
                                seen ==> exists|m: int| 0 <= m < prev.len() && same_edge(prev[m], d),
                            decreases deps@.len() - k,
                        {
                            let e = &deps[k];
                            assert(prev[k as int] == e@);
                            let same = str_eq(&e.target_filename, &target) && e.line
                                == imp.line_number && str_eq(&e.feature_path, &f);
                            assert(same == same_edge(prev[k as int], d));
                            if same {
                                seen = true;
                            }
                            k = k + 1;
                        }
                        if !seen {
                            deps.push(
                                Dependency {
                                    source_filename: imp.file_path.clone(),
                                    target_filename: target,
                                    line: imp.line_number,
                                    content: imp.line_content.clone(),
                                    feature_path: f,
                                    dependency_type: kind,
                                },
                            );
                            assert(dep_views(deps@) =~= prev.push(d));
                        } else {
                            assert(exists|m: int| 0 <= m < prev.len() && same_edge(#[trigger] prev[m], d));
                        }
                    }
                },
                None => {},
            },
            None => {},
        }
        i = i + 1;
    }
    assert(imports@.take(imports@.len() as int) =~= imports@);
    deps
}

} // verus!
