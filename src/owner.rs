//! Ownership queries over a feature tree: the most specific feature that
//! encloses a path, with its owner.
use crate::commits::{tally, views};
use crate::dependency::FeatureInfo;
use crate::paths::{is_within, within_vec};
use crate::text::chars_of;
use crate::tree::Feature;
use vstd::prelude::*;

verus! {

/// The owner of a path and the feature it comes from.
#[derive(Debug, Clone)]
pub struct OwnerInfo {
    pub owner: String,
    pub inherited: bool,
    pub feature_name: String,
    pub feature_path: String,
}

/// Owner, inherited flag, feature name and feature path.
pub type OwnerView = (Seq<char>, bool, Seq<char>, Seq<char>);

pub open spec fn info_of(f: Feature) -> OwnerView {
    (f.owner@, f.is_owner_inherited, f.name@, f.path@)
}

/// The first feature of `fs` from index `i` on whose directory holds `target`,
/// replaced by the most specific of its nested features that holds it too.
pub open spec fn enclosing_from(fs: Seq<Feature>, target: Seq<char>, i: int) -> Option<OwnerView>
    decreases fs, fs.len() - i,
{
    if i < 0 || i >= fs.len() {
        None
    } else if is_within(target, fs[i].path@) {
        match enclosing_from(fs[i].features@, target, 0) {
            Some(x) => Some(x),
            None => Some(info_of(fs[i])),
        }
    } else {
        enclosing_from(fs, target, i + 1)
    }
}

pub open spec fn owner_view(r: Option<OwnerInfo>) -> Option<OwnerView> {
    match r {
        Some(o) => Some((o.owner@, o.inherited, o.feature_name@, o.feature_path@)),
        None => None,
    }
}

fn search(fs: &Vec<Feature>, target: &Vec<char>) -> (r: Option<OwnerInfo>)
    ensures
        owner_view(r) == enclosing_from(fs@, target@, 0),
    decreases fs@,
{
    let mut i: usize = 0;
    while i < fs.len()
        invariant
            i <= fs@.len(),
            enclosing_from(fs@, target@, 0) == enclosing_from(fs@, target@, i as int),
        decreases fs@.len() - i,
    {
        let f = &fs[i];
        if within_vec(target, &chars_of(f.path.as_str())) {
            assert(decreases_to!(fs@ => fs@[i as int].features@));
            return match search(&f.features, target) {
                Some(x) => Some(x),
                None => Some(
                    OwnerInfo {
                        owner: f.owner.clone(),
                        inherited: f.is_owner_inherited,
                        feature_name: f.name.clone(),
                        feature_path: f.path.clone(),
                    },
                ),
            };
        }
        i = i + 1;
    }
    None
}

/// The owner of `target_path` (relative to the scan root): that of the most
/// specific feature whose directory holds it; `None` outside every feature.
pub fn find_owner_for_path(target_path: &str, features: &Vec<Feature>) -> (r: Option<OwnerInfo>)
    ensures
        owner_view(r) == enclosing_from(features@, target_path@, 0),
{
    search(features, &chars_of(target_path))
}

pub open spec fn info_views(v: Seq<FeatureInfo>) -> Seq<(Seq<char>, Seq<char>)> {
    v.map_values(|f: FeatureInfo| (f.name@, f.path@))
}

/// Name and path of every feature of `fs`, each before its nested features.
pub open spec fn preorder(fs: Seq<Feature>) -> Seq<(Seq<char>, Seq<char>)>
    decreases fs,
{
    if fs.len() == 0 {
        Seq::empty()
    } else {
        seq![(fs[0].name@, fs[0].path@)] + preorder(fs[0].features@) + preorder(fs.drop_first())
    }
}

/// Appends the name and path of every feature of the tree to `result`, each
/// feature before its nested ones.
pub fn collect_feature_info(
    features: &Vec<Feature>,
    _parent_path: Option<&str>,
    result: &mut Vec<FeatureInfo>,
)
    ensures
        info_views(final(result)@) == info_views(old(result)@) + preorder(features@),
    decreases features@,
{
    let ghost start = info_views(result@);
    let mut i: usize = 0;
    assert(features@.subrange(0, features@.len() as int) =~= features@);
    while i < features.len()
        invariant
            i <= features@.len(),
            info_views(result@) + preorder(features@.subrange(i as int, features@.len() as int))
                == start + preorder(features@),
        decreases features@.len() - i,
    {
        let ghost rest = features@.subrange(i as int, features@.len() as int);
        assert(rest[0] == features@[i as int]);
        assert(rest.drop_first() =~= features@.subrange(i + 1, features@.len() as int));
        let f = &features[i];
        let ghost before = info_views(result@);
        result.push(FeatureInfo { name: f.name.clone(), path: f.path.clone() });
        assert(info_views(result@) =~= before.push((f.name@, f.path@)));
        assert(decreases_to!(features@ => features@[i as int].features@));
        collect_feature_info(&f.features, None, result);
        i = i + 1;
        assert(info_views(result@) + preorder(features@.subrange(i as int, features@.len() as int))
            =~= start + preorder(features@));
    }
    assert(features@.subrange(i as int, features@.len() as int) =~= Seq::<Feature>::empty());
    assert(info_views(result@) =~= start + preorder(features@));
}

/// The owner of every feature of `fs`, each before those of its nested features.
pub open spec fn owners_preorder(fs: Seq<Feature>) -> Seq<Seq<char>>
    decreases fs,
{
    if fs.len() == 0 {
        Seq::empty()
    } else {
        seq![fs[0].owner@] + owners_preorder(fs[0].features@) + owners_preorder(fs.drop_first())
    }
}

fn collect_owners(features: &Vec<Feature>, result: &mut Vec<String>)
    ensures
        views(final(result)@) == views(old(result)@) + owners_preorder(features@),
    decreases features@,
{
    let ghost start = views(result@);
    let mut i: usize = 0;
    assert(features@.subrange(0, features@.len() as int) =~= features@);
    while i < features.len()
        invariant
            i <= features@.len(),
            views(result@) + owners_preorder(features@.subrange(i as int, features@.len() as int))
                == start + owners_preorder(features@),
        decreases features@.len() - i,
    {
        let ghost rest = features@.subrange(i as int, features@.len() as int);
        assert(rest[0] == features@[i as int]);
        assert(rest.drop_first() =~= features@.subrange(i + 1, features@.len() as int));
        let f = &features[i];
        let ghost before = views(result@);
        result.push(f.owner.clone());
        assert(views(result@) =~= before.push(f.owner@));
        assert(decreases_to!(features@ => features@[i as int].features@));
        collect_owners(&f.features, result);
        i = i + 1;
        assert(views(result@) + owners_preorder(features@.subrange(i as int, features@.len() as int))
            =~= start + owners_preorder(features@));
    }
    assert(features@.subrange(i as int, features@.len() as int) =~= Seq::<Feature>::empty());
    assert(views(result@) =~= start + owners_preorder(features@));
}

/// The owners that occur in the tree, each once.
pub fn extract_unique_owners(features: &Vec<Feature>) -> (r: Vec<String>)
    ensures
        forall|i: int, j: int| 0 <= i < j < r@.len() ==> r@[i]@ != r@[j]@,
        forall|i: int| 0 <= i < r@.len() ==> owners_preorder(features@).contains(#[trigger] r@[i]@),
        forall|x: Seq<char>| #[trigger] owners_preorder(features@).contains(x) ==> views(r@).contains(x),
{
    let mut all: Vec<String> = Vec::new();
    collect_owners(features, &mut all);
    assert(views(all@) =~= owners_preorder(features@));
    let (names, _counts) = tally(&all);
    assert forall|i: int, j: int| 0 <= i < j < names@.len() implies names@[i]@ != names@[j]@ by {
        assert(views(names@)[i] == names@[i]@);
        assert(views(names@)[j] == names@[j]@);
    }
    assert forall|i: int| 0 <= i < names@.len() implies owners_preorder(features@).contains(
        #[trigger] names@[i]@,
    ) by {
        assert(views(names@)[i] == names@[i]@);
    }
    assert forall|x: Seq<char>| #[trigger] owners_preorder(features@).contains(x) implies views(
        names@,
    ).contains(x) by {
        let k = choose|k: int| 0 <= k < views(all@).len() && views(all@)[k] == x;
    }
    names
}

} // verus!
