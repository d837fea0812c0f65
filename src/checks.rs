//! Consistency checks over a feature tree: feature names used more than once.
use crate::commits::{count_in, is_tally, lemma_count_in_bound, tally, views};
use crate::dependency::FeatureInfo;
use crate::owner::{collect_feature_info, info_views, preorder};
use crate::text::{chars_of, eq_vec};
use crate::tree::Feature;
use vstd::prelude::*;

verus! {

/// A feature name that several features share, with their paths.
#[derive(Debug, Clone)]
pub struct DuplicateName {
    pub name: String,
    pub paths: Vec<String>,
}

/// The paths of the entries of `es[..n]` named `name`, in order.
pub open spec fn paths_named(es: Seq<(Seq<char>, Seq<char>)>, name: Seq<char>, n: int) -> Seq<
    Seq<char>,
>
    decreases n,
{
    if n <= 0 {
        Seq::empty()
    } else {
        let prev = paths_named(es, name, n - 1);
        if es[n - 1].0 == name {
            prev.push(es[n - 1].1)
        } else {
            prev
        }
    }
}

pub open spec fn names_of(es: Seq<(Seq<char>, Seq<char>)>) -> Seq<Seq<char>> {
    Seq::new(es.len(), |i: int| es[i].0)
}

/// `groups` lists, once each and with all their paths, exactly the names that
/// more than one entry of `es` carries.
pub open spec fn duplicates_ok(groups: Seq<DuplicateName>, es: Seq<(Seq<char>, Seq<char>)>) -> bool {
    &&& forall|i: int, j: int| 0 <= i < j < groups.len() ==> groups[i].name@ != groups[j].name@
    &&& forall|i: int|
        0 <= i < groups.len() ==> count_in(names_of(es), #[trigger] groups[i].name@) > 1
            && views(groups[i].paths@) == paths_named(es, groups[i].name@, es.len() as int)
    &&& forall|k: int|
        0 <= k < es.len() && count_in(names_of(es), es[k].0) > 1 ==> exists|i: int|
            0 <= i < groups.len() && #[trigger] groups[i].name@ == es[k].0
}

fn paths_with_name(infos: &Vec<FeatureInfo>, name: &String) -> (r: Vec<String>)
    ensures
        views(r@) == paths_named(info_views(infos@), name@, infos@.len() as int),
{
    let nv = chars_of(name.as_str());
    let mut r: Vec<String> = Vec::new();
    let mut i: usize = 0;
    while i < infos.len()
        invariant
            i <= infos@.len(),
            nv@ == name@,
            views(r@) == paths_named(info_views(infos@), name@, i as int),
        decreases infos@.len() - i,
    {
        assert(info_views(infos@)[i as int] == (infos@[i as int].name@, infos@[i as int].path@));
        if eq_vec(&chars_of(infos[i].name.as_str()), &nv) {
            let ghost before = views(r@);
            r.push(infos[i].path.clone());
            assert(views(r@) =~= before.push(infos@[i as int].path@));
        }
        i = i + 1;
    }
    r
}

/// The feature names that more than one feature of the tree carries, each
/// with the paths of those features.
pub fn check_duplicate_names(features: &Vec<Feature>) -> (r: Vec<DuplicateName>)
    ensures
        duplicates_ok(r@, preorder(features@)),
{
    let mut infos: Vec<FeatureInfo> = Vec::new();
    collect_feature_info(features, None, &mut infos);
    assert(info_views(infos@) =~= preorder(features@));
    let ghost es = preorder(features@);
    let mut names: Vec<String> = Vec::new();
    let mut i: usize = 0;
    while i < infos.len()
        invariant
            i <= infos@.len(),
            es == info_views(infos@),
            views(names@) == names_of(es).take(i as int),
        decreases infos@.len() - i,
    {
        let ghost before = views(names@);
        names.push(infos[i].name.clone());
        assert(views(names@) =~= before.push(es[i as int].0));
        i = i + 1;
        assert(names_of(es).take(i as int) =~= names_of(es).take(i - 1).push(es[i - 1].0));
    }
    assert(names_of(es).take(infos@.len() as int) =~= names_of(es));
    let (distinct, counts) = tally(&names);
    let mut groups: Vec<DuplicateName> = Vec::new();
    let mut k: usize = 0;
    while k < distinct.len()
        invariant
            k <= distinct@.len(),
            es == info_views(infos@),
            es.len() == infos@.len(),
            is_tally(names_of(es), views(distinct@), counts@),
            forall|a: int, b: int|
                0 <= a < b < groups@.len() ==> groups@[a].name@ != groups@[b].name@,
            forall|a: int|
                0 <= a < groups@.len() ==> exists|m: int|
                    0 <= m < k && #[trigger] groups@[a].name@ == distinct@[m]@,
            forall|a: int|
                0 <= a < groups@.len() ==> count_in(names_of(es), #[trigger] groups@[a].name@)
                    > 1 && views(groups@[a].paths@) == paths_named(
                    es,
                    groups@[a].name@,
                    es.len() as int,
                ),
            forall|m: int|
                0 <= m < k && counts@[m] > 1 ==> exists|a: int|
                    0 <= a < groups@.len() && #[trigger] groups@[a].name@ == distinct@[m]@,
        decreases distinct@.len() - k,
    {
        assert(views(distinct@)[k as int] == distinct@[k as int]@);
        if counts[k] > 1 {
            let paths = paths_with_name(&infos, &distinct[k]);
            let ghost before = groups@;
            groups.push(DuplicateName { name: distinct[k].clone(), paths });
            assert forall|a: int, b: int|
                0 <= a < b < groups@.len() implies groups@[a].name@ != groups@[b].name@ by {
                if b == groups@.len() - 1 {
                    let m = choose|m: int| 0 <= m < k && #[trigger] before[a].name@ == distinct@[m]@;
                    assert(views(distinct@)[m] == distinct@[m]@);
                    assert(groups@[a] == before[a]);
                } else {
                    assert(groups@[a] == before[a]);
                    assert(groups@[b] == before[b]);
                }
            }
            assert forall|a: int| 0 <= a < groups@.len() implies exists|m: int|
                0 <= m < k + 1 && #[trigger] groups@[a].name@ == distinct@[m]@ by {
                if a < before.len() {
                    assert(groups@[a] == before[a]);
                    let m = choose|m: int| 0 <= m < k && #[trigger] before[a].name@ == distinct@[m]@;
                    assert(groups@[a].name@ == distinct@[m]@);
                } else {
                    assert(groups@[a].name@ == distinct@[k as int]@);
                }
            }
            assert forall|a: int| 0 <= a < groups@.len() implies count_in(
                names_of(es),
                #[trigger] groups@[a].name@,
            ) > 1 && views(groups@[a].paths@) == paths_named(
                es,
                groups@[a].name@,
                es.len() as int,
            ) by {
                if a < before.len() {
                    assert(groups@[a] == before[a]);
                }
            }
            assert forall|m: int| 0 <= m < k + 1 && counts@[m] > 1 implies exists|a: int|
                0 <= a < groups@.len() && #[trigger] groups@[a].name@ == distinct@[m]@ by {
                if m < k {
                    let a = choose|a: int|
                        0 <= a < before.len() && #[trigger] before[a].name@ == distinct@[m]@;
                    assert(groups@[a] == before[a]);
                } else {
                    assert(groups@[before.len() as int].name@ == distinct@[m]@);
                }
            }
        }
        k = k + 1;
    }
    assert forall|q: int|
        0 <= q < es.len() && count_in(names_of(es), es[q].0) > 1 implies exists|i: int|
        0 <= i < groups@.len() && #[trigger] groups@[i].name@ == es[q].0 by {
        assert(names_of(es)[q] == es[q].0);
        assert(views(distinct@).contains(names_of(es)[q]));
        let m = choose|m: int| 0 <= m < views(distinct@).len() && views(distinct@)[m] == es[q].0;
        assert(views(distinct@)[m] == distinct@[m]@);
        assert(counts@[m] == count_in(names_of(es), views(distinct@)[m]));
    }
    groups
}

/// The names that two or more entries of `es` carry.
pub open spec fn shared_names(es: Seq<(Seq<char>, Seq<char>)>) -> Set<Seq<char>> {
    Set::new(|x: Seq<char>| count_in(names_of(es), x) > 1)
}

/// No name is carried by two entries of `es`.
pub open spec fn names_unique(es: Seq<(Seq<char>, Seq<char>)>) -> bool {
    forall|k: int| 0 <= k < es.len() ==> count_in(names_of(es), #[trigger] es[k].0) <= 1
}

/// A name that occurs at all occurs at some index.
proof fn lemma_shared_name_index(es: Seq<(Seq<char>, Seq<char>)>, x: Seq<char>)
    requires
        count_in(names_of(es), x) > 0,
    ensures
        exists|k: int| 0 <= k < es.len() && #[trigger] es[k].0 == x,
{
    lemma_count_in_bound(names_of(es), x);
    let k = choose|k: int| 0 <= k < names_of(es).len() && names_of(es)[k] == x;
    assert(es[k].0 == x);
}

/// `Ok` exactly when no two features share a name; otherwise `Err` with the
/// number of names that are shared.
pub fn run_checks(features: &Vec<Feature>) -> (r: Result<(), usize>)
    ensures
        r is Ok <==> names_unique(preorder(features@)),
        r matches Err(n) ==> n as nat == shared_names(preorder(features@)).len(),
{
    let groups = check_duplicate_names(features);
    let ghost es = preorder(features@);
    let ghost g = Seq::new(groups@.len(), |i: int| groups@[i].name@);
    proof {
        assert(g.no_duplicates()) by {
            assert forall|i: int, j: int| 0 <= i < g.len() && 0 <= j < g.len() && i != j implies g[i]
                != g[j] by {
                if i < j {
                    assert(groups@[i].name@ != groups@[j].name@);
                } else {
                    assert(groups@[j].name@ != groups@[i].name@);
                }
            }
        }
        assert forall|x: Seq<char>| g.to_set().contains(x) <==> shared_names(es).contains(x) by {
            if g.to_set().contains(x) {
                let i = choose|i: int| 0 <= i < g.len() && g[i] == x;
                assert(count_in(names_of(es), groups@[i].name@) > 1);
            }
            if shared_names(es).contains(x) {
                lemma_shared_name_index(es, x);
                let k = choose|k: int| 0 <= k < es.len() && #[trigger] es[k].0 == x;
                let i = choose|i: int| 0 <= i < groups@.len() && #[trigger] groups@[i].name@ == es[k].0;
                assert(g[i] == x);
            }
        }
        assert(g.to_set() =~= shared_names(es));
        g.unique_seq_to_set();
        if groups@.len() == 0 {
            assert forall|k: int| 0 <= k < es.len() implies count_in(names_of(es), #[trigger] es[k].0)
                <= 1 by {
                if count_in(names_of(es), es[k].0) > 1 {
                    let i = choose|i: int| 0 <= i < groups@.len() && #[trigger] groups@[i].name@ == es[k].0;
                }
            }
        } else {
            let x = groups@[0].name@;
            assert(count_in(names_of(es), x) > 1);
            lemma_shared_name_index(es, x);
            let k = choose|k: int| 0 <= k < es.len() && #[trigger] es[k].0 == x;
            assert(!names_unique(es));
        }
    }
    if groups.len() == 0 {
        Ok(())
    } else {
        Err(groups.len())
    }
}

} // verus!
