//! Commit history attribution: which commits count for a feature, the
//! conventional-commit type of a title, and the per-feature commit tallies.
use crate::paths::{is_strictly_within, within_vec};
use crate::text::{
    chars_of, eq_vec, find_spec, find_vec, lemma_find_from_bounds, matches_at, slice, starts_with,
    string_of, trim, trim_spec,
};
use vstd::prelude::*;

verus! {

/// One commit attributed to a feature.
#[derive(Debug, Clone)]
pub struct Change {
    pub title: String,
    pub author_name: String,
    pub author_email: String,
    pub description: String,
    pub date: String,
    pub hash: String,
}

impl Change {
    /// A field-for-field copy.
    pub fn duplicate(&self) -> (r: Change)
        ensures
            r == *self,
    {
        Change {
            title: self.title.clone(),
            author_name: self.author_name.clone(),
            author_email: self.author_email.clone(),
            description: self.description.clone(),
            date: self.date.clone(),
            hash: self.hash.clone(),
        }
    }
}

pub open spec fn ascii_lower(c: char) -> char {
    if 'A' <= c && c <= 'Z' {
        ((c as u8) + 32) as char
    } else {
        c
    }
}

pub open spec fn lower_spec(s: Seq<char>) -> Seq<char> {
    s.map_values(|c: char| ascii_lower(c))
}

pub open spec fn is_known_type(t: Seq<char>) -> bool {
    t == "feat"@ || t == "fix"@ || t == "docs"@ || t == "style"@ || t == "refactor"@ || t
        == "perf"@ || t == "test"@ || t == "build"@ || t == "ci"@ || t == "chore"@ || t
        == "revert"@
}

/// The conventional-commit type of a title: the text before the first `:`, less
/// any `(scope)`, trimmed and lower-cased, when it is a known type; else `other`.
pub open spec fn commit_type_spec(title: Seq<char>) -> Seq<char> {
    match find_spec(title, ":"@) {
        Some(c) => {
            let prefix = title.take(c);
            let tp = match find_spec(prefix, "("@) {
                Some(p) => prefix.take(p),
                None => prefix,
            };
            let ty = lower_spec(trim_spec(tp));
            if is_known_type(ty) {
                ty
            } else {
                "other"@
            }
        },
        None => "other"@,
    }
}

pub fn lower_vec(v: &Vec<char>) -> (r: Vec<char>)
    ensures
        r@ == lower_spec(v@),
{
    let mut r: Vec<char> = Vec::new();
    let mut i: usize = 0;
    while i < v.len()
        invariant
            i <= v@.len(),
            r@ == lower_spec(v@.take(i as int)),
        decreases v@.len() - i,
    {
        let c = v[i];
        let l = if 'A' <= c && c <= 'Z' {
            ((c as u8) + 32) as char
        } else {
            c
        };
        r.push(l);
        i = i + 1;
        assert(r@ =~= lower_spec(v@.take(i as int)));
    }
    assert(v@.take(v@.len() as int) =~= v@);
    r
}

fn is_lit(v: &Vec<char>, lit: &str) -> (r: bool)
    ensures
        r == (v@ == lit@),
{
    eq_vec(v, &chars_of(lit))
}

/// The conventional-commit type of a commit title (`feat(auth): x` gives `feat`).
pub fn extract_commit_type(title: &str) -> (r: String)
    ensures
        r@ == commit_type_spec(title@),
{
    let t = chars_of(title);
    let other = chars_of("other");
    match find_vec(&t, &chars_of(":")) {
        Some(c) => {
            proof {
                lemma_find_from_bounds(t@, ":"@, 0);
            }
            let prefix = slice(&t, 0, c);
            assert(prefix@ =~= t@.take(c as int));
            let tp = match find_vec(&prefix, &chars_of("(")) {
                Some(p) => {
                    proof {
                        lemma_find_from_bounds(prefix@, "("@, 0);
                    }
                    let x = slice(&prefix, 0, p);
                    assert(x@ =~= prefix@.take(p as int));
                    x
                },
                None => prefix,
            };
            let ty = lower_vec(&trim(&tp));
            if is_lit(&ty, "feat") || is_lit(&ty, "fix") || is_lit(&ty, "docs") || is_lit(
                &ty,
                "style",
            ) || is_lit(&ty, "refactor") || is_lit(&ty, "perf") || is_lit(&ty, "test") || is_lit(
                &ty,
                "build",
            ) || is_lit(&ty, "ci") || is_lit(&ty, "chore") || is_lit(&ty, "revert") {
                string_of(ty.as_slice())
            } else {
                string_of(other.as_slice())
            }
        },
        None => string_of(other.as_slice()),
    }
}

/// A commit counts for a feature when one of the files it touches starts with
/// the feature's path and with none of the nested features' paths (a plain
/// string prefix, as the history index is keyed).
pub open spec fn counts_for_feature(
    affected: Seq<Seq<char>>,
    feature: Seq<char>,
    nested: Seq<Seq<char>>,
) -> bool {
    exists|i: int|
        0 <= i < affected.len() && starts_with(affected[i], feature) && forall|j: int|
            0 <= j < nested.len() ==> !starts_with(#[trigger] affected[i], nested[j])
}

pub open spec fn views(v: Seq<String>) -> Seq<Seq<char>> {
    v.map_values(|s: String| s@)
}

fn starts_str(a: &String, b: &String) -> (r: bool)
    ensures
        r == starts_with(a@, b@),
{
    matches_at(&chars_of(a.as_str()), &chars_of(b.as_str()), 0)
}

/// Whether a commit touching the files `affected` counts for the feature at
/// `feature_path`, whose nested features lie at `nested_paths`.
pub fn commit_counts_for_feature(
    affected: &Vec<String>,
    feature_path: &String,
    nested_paths: &Vec<String>,
) -> (r: bool)
    ensures
        r == counts_for_feature(views(affected@), feature_path@, views(nested_paths@)),
{
    let mut i: usize = 0;
    while i < affected.len()
        invariant
            i <= affected@.len(),
            forall|k: int|
                0 <= k < i ==> !(starts_with(affected@[k]@, feature_path@) && forall|j: int|
                    0 <= j < nested_paths@.len() ==> !starts_with(
                        #[trigger] affected@[k]@,
                        nested_paths@[j]@,
                    )),
        decreases affected@.len() - i,
    {
        if starts_str(&affected[i], feature_path) {
            let mut in_nested = false;
            let mut j: usize = 0;
            while j < nested_paths.len()
                invariant
                    i < affected@.len(),
                    j <= nested_paths@.len(),
                    !in_nested ==> forall|m: int|
                        0 <= m < j ==> !starts_with(affected@[i as int]@, nested_paths@[m]@),
                    in_nested ==> exists|m: int|
                        0 <= m < nested_paths@.len() && starts_with(
                            affected@[i as int]@,
                            nested_paths@[m]@,
                        ),
                decreases nested_paths@.len() - j,
            {
                if starts_str(&affected[i], &nested_paths[j]) {
                    in_nested = true;
                }
                j = j + 1;
            }
            if !in_nested {
                assert(views(affected@)[i as int] == affected@[i as int]@);
                assert forall|m: int| 0 <= m < views(nested_paths@).len() implies !starts_with(
                    #[trigger] views(affected@)[i as int],
                    views(nested_paths@)[m],
                ) by {
                    assert(views(nested_paths@)[m] == nested_paths@[m]@);
                }
                return true;
            }
        }
        i = i + 1;
    }
    assert forall|k: int|
        0 <= k < views(affected@).len() && starts_with(
            views(affected@)[k],
            feature_path@,
        ) implies exists|j: int|
        0 <= j < views(nested_paths@).len() && starts_with(
            #[trigger] views(affected@)[k],
            views(nested_paths@)[j],
        ) by {
        assert(views(affected@)[k] == affected@[k]@);
        let j = choose|j: int|
            0 <= j < nested_paths@.len() && starts_with(affected@[k]@, nested_paths@[j]@);
        assert(views(nested_paths@)[j] == nested_paths@[j]@);
    }
    false
}

/// One commit with the files it touched.
#[derive(Debug, Clone)]
pub struct CommitRecord {
    pub change: Change,
    pub affected: Vec<String>,
}

/// The commits of `records`, in order, that count for the feature.
pub open spec fn kept_changes(
    records: Seq<CommitRecord>,
    feature: Seq<char>,
    nested: Seq<Seq<char>>,
) -> Seq<Change>
    decreases records.len(),
{
    if records.len() == 0 {
        Seq::empty()
    } else {
        let prev = kept_changes(records.drop_last(), feature, nested);
        if counts_for_feature(views(records.last().affected@), feature, nested) {
            prev.push(records.last().change)
        } else {
            prev
        }
    }
}

/// The changes that count for the feature at `feature_path`: those whose
/// commit touched a file of the feature outside all of `nested_paths`.
pub fn filter_changes(
    records: &Vec<CommitRecord>,
    feature_path: &String,
    nested_paths: &Vec<String>,
) -> (r: Vec<Change>)
    ensures
        r@ == kept_changes(records@, feature_path@, views(nested_paths@)),
{
    let mut r: Vec<Change> = Vec::new();
    let mut i: usize = 0;
    while i < records.len()
        invariant
            i <= records@.len(),
            r@ == kept_changes(records@.take(i as int), feature_path@, views(nested_paths@)),
        decreases records@.len() - i,
    {
        let rec = &records[i];
        assert(records@.take(i + 1).drop_last() =~= records@.take(i as int));
        if commit_counts_for_feature(&rec.affected, feature_path, nested_paths) {
            r.push(rec.change.duplicate());
        }
        i = i + 1;
    }
    assert(records@.take(records@.len() as int) =~= records@);
    r
}

/// A commit whose touched files all lie under nested features never counts for
/// the parent; one that touched a file of the parent outside every nested
/// feature always does.
pub proof fn law_nested_only_commits_excluded(
    affected: Seq<Seq<char>>,
    feature: Seq<char>,
    nested: Seq<Seq<char>>,
)
    ensures
        (forall|i: int|
            0 <= i < affected.len() ==> exists|j: int|
                0 <= j < nested.len() && starts_with(#[trigger] affected[i], nested[j]))
            ==> !counts_for_feature(affected, feature, nested),
        (exists|i: int|
            0 <= i < affected.len() && starts_with(affected[i], feature) && forall|j: int|
                0 <= j < nested.len() ==> !starts_with(#[trigger] affected[i], nested[j]))
            ==> counts_for_feature(affected, feature, nested),
{
}

/// How many entries of `keys` equal `k`.
pub open spec fn count_in(keys: Seq<Seq<char>>, k: Seq<char>) -> nat
    decreases keys.len(),
{
    if keys.len() == 0 {
        0
    } else {
        count_in(keys.drop_last(), k) + if keys.last() == k {
            1nat
        } else {
            0nat
        }
    }
}

pub proof fn lemma_count_in_bound(keys: Seq<Seq<char>>, k: Seq<char>)
    ensures
        count_in(keys, k) <= keys.len(),
        !keys.contains(k) ==> count_in(keys, k) == 0,
    decreases keys.len(),
{
    if keys.len() > 0 {
        lemma_count_in_bound(keys.drop_last(), k);
        if !keys.contains(k) {
            assert(forall|i: int|
                0 <= i < keys.drop_last().len() ==> keys.drop_last()[i] == keys[i]);
            assert(!keys.drop_last().contains(k));
            assert(keys.last() == keys[keys.len() - 1]);
        }
    }
}

/// Tallies of distinct keys: `names` holds each key of the input exactly once
/// and nothing else, and `counts[i]` is how often `names[i]` occurs.
pub open spec fn is_tally(keys: Seq<Seq<char>>, names: Seq<Seq<char>>, counts: Seq<usize>) -> bool {
    &&& names.len() == counts.len()
    &&& forall|i: int, j: int| 0 <= i < j < names.len() ==> names[i] != names[j]
    &&& forall|i: int| 0 <= i < names.len() ==> #[trigger] counts[i] == count_in(keys, names[i])
    &&& forall|i: int| 0 <= i < names.len() ==> keys.contains(#[trigger] names[i])
    &&& forall|k: int| 0 <= k < keys.len() ==> names.contains(#[trigger] keys[k])
}

/// Counts the occurrences of each distinct key.
pub fn tally(keys: &Vec<String>) -> (r: (Vec<String>, Vec<usize>))
    ensures
        is_tally(views(keys@), views(r.0@), r.1@),
{
    let mut names: Vec<String> = Vec::new();
    let mut counts: Vec<usize> = Vec::new();
    let mut i: usize = 0;
    while i < keys.len()
        invariant
            i <= keys@.len(),
            is_tally(views(keys@.take(i as int)), views(names@), counts@),
        decreases keys@.len() - i,
    {
        let ghost old_keys = views(keys@.take(i as int));
        let ghost new_keys = views(keys@.take(i + 1));
        assert(new_keys.drop_last() =~= old_keys);
        assert(new_keys.last() == keys@[i as int]@);
        let mut j: usize = 0;
        let mut found = false;
        while j < names.len() && !found
            invariant
                i < keys@.len(),
                j <= names@.len(),
                !found ==> forall|m: int| 0 <= m < j ==> names@[m]@ != keys@[i as int]@,
                found ==> j < names@.len() && names@[j as int]@ == keys@[i as int]@,
            decreases names@.len() - j + if found {
                0int
            } else {
                1int
            },
        {
            if names[j] == keys[i] {
                found = true;
            } else {
                j = j + 1;
            }
        }
        if found {
            proof {
                lemma_count_in_bound(old_keys, names@[j as int]@);
            }
            assert(views(names@)[j as int] == names@[j as int]@);
            let c = counts[j];
            counts.set(j, c + 1);
            assert forall|m: int| 0 <= m < views(names@).len() implies #[trigger] counts@[m]
                == count_in(new_keys, views(names@)[m]) by {
                assert(views(names@)[m] == names@[m]@);
                if m != j {
                    assert(views(names@)[m] != views(names@)[j as int]);
                }
            }
            assert forall|m: int| 0 <= m < views(names@).len() implies new_keys.contains(
                #[trigger] views(names@)[m],
            ) by {
                assert(old_keys.contains(views(names@)[m]));
                let w = choose|w: int| 0 <= w < old_keys.len() && old_keys[w] == views(names@)[m];
                assert(new_keys[w] == old_keys[w]);
            }
            assert forall|k: int| 0 <= k < new_keys.len() implies views(names@).contains(
                #[trigger] new_keys[k],
            ) by {
                if k < new_keys.len() - 1 {
                    assert(new_keys[k] == old_keys[k]);
                } else {
                    assert(views(names@)[j as int] == new_keys[k]);
                }
            }
        } else {
            let ghost old_names = views(names@);
            proof {
                lemma_count_in_bound(old_keys, keys@[i as int]@);
                assert forall|m: int| 0 <= m < old_names.len() implies old_names[m]
                    != keys@[i as int]@ by {
                    assert(old_names[m] == names@[m]@);
                }
                if old_keys.contains(keys@[i as int]@) {
                    let w = choose|w: int|
                        0 <= w < old_keys.len() && old_keys[w] == keys@[i as int]@;
                    assert(old_names.contains(old_keys[w]));
                }
            }
            names.push(keys[i].clone());
            counts.push(1);
            assert(views(names@) =~= old_names.push(keys@[i as int]@));
            assert forall|m: int| 0 <= m < views(names@).len() implies #[trigger] counts@[m]
                == count_in(new_keys, views(names@)[m]) by {
                if m < old_names.len() {
                    assert(views(names@)[m] == old_names[m]);
                }
            }
            assert forall|m: int| 0 <= m < views(names@).len() implies new_keys.contains(
                #[trigger] views(names@)[m],
            ) by {
                if m < old_names.len() {
                    assert(old_keys.contains(old_names[m]));
                    let w = choose|w: int| 0 <= w < old_keys.len() && old_keys[w] == old_names[m];
                    assert(new_keys[w] == old_keys[w]);
                } else {
                    assert(new_keys[new_keys.len() - 1] == views(names@)[m]);
                }
            }
            assert forall|k: int| 0 <= k < new_keys.len() implies views(names@).contains(
                #[trigger] new_keys[k],
            ) by {
                if k < new_keys.len() - 1 {
                    assert(new_keys[k] == old_keys[k]);
                    assert(old_names.contains(old_keys[k]));
                    let w = choose|w: int| 0 <= w < old_names.len() && old_names[w] == old_keys[k];
                    assert(views(names@)[w] == old_names[w]);
                } else {
                    assert(views(names@)[old_names.len() as int] == new_keys[k]);
                }
            }
        }
        i = i + 1;
    }
    assert(keys@.take(keys@.len() as int) =~= keys@);
    (names, counts)
}

/// Commit statistics of a feature.
#[derive(Debug, Clone)]
pub struct CommitStats {
    pub total_commits: usize,
    pub authors: Vec<String>,
    pub author_counts: Vec<usize>,
    pub types: Vec<String>,
    pub type_counts: Vec<usize>,
    pub first_commit_date: Option<String>,
    pub last_commit_date: Option<String>,
}

/// The authors of `changes`, in order.
pub open spec fn author_keys(changes: Seq<Change>) -> Seq<Seq<char>> {
    Seq::new(changes.len(), |i: int| changes[i].author_name@)
}

/// The conventional-commit types of `changes`, in order.
pub open spec fn type_keys(changes: Seq<Change>) -> Seq<Seq<char>> {
    Seq::new(changes.len(), |i: int| commit_type_spec(changes[i].title@))
}

pub open spec fn opt_str(o: Option<String>) -> Option<Seq<char>> {
    match o {
        Some(s) => Some(s@),
        None => None,
    }
}

/// `s` holds the statistics of `changes`: their number, the tallies by author
/// and by type, and the dates of the first and the last.
pub open spec fn commit_stats_ok(s: CommitStats, changes: Seq<Change>) -> bool {
    &&& s.total_commits == changes.len()
    &&& is_tally(author_keys(changes), views(s.authors@), s.author_counts@)
    &&& is_tally(type_keys(changes), views(s.types@), s.type_counts@)
    &&& opt_str(s.first_commit_date) == if changes.len() > 0 {
        Some(changes[0].date@)
    } else {
        None
    }
    &&& opt_str(s.last_commit_date) == if changes.len() > 0 {
        Some(changes.last().date@)
    } else {
        None
    }
}

/// The commit statistics of a feature's changes.
pub fn commit_stats(changes: &Vec<Change>) -> (r: CommitStats)
    ensures
        commit_stats_ok(r, changes@),
{
    let mut authors: Vec<String> = Vec::new();
    let mut types: Vec<String> = Vec::new();
    let mut i: usize = 0;
    while i < changes.len()
        invariant
            i <= changes@.len(),
            views(authors@) == author_keys(changes@).take(i as int),
            views(types@) == type_keys(changes@).take(i as int),
        decreases changes@.len() - i,
    {
        let ghost ba = views(authors@);
        let ghost bt = views(types@);
        let a = changes[i].author_name.clone();
        authors.push(a);
        types.push(extract_commit_type(changes[i].title.as_str()));
        assert(views(authors@) =~= ba.push(changes@[i as int].author_name@));
        assert(views(types@) =~= bt.push(commit_type_spec(changes@[i as int].title@)));
        assert(author_keys(changes@).take(i + 1) =~= author_keys(changes@).take(i as int).push(
            changes@[i as int].author_name@,
        ));
        assert(type_keys(changes@).take(i + 1) =~= type_keys(changes@).take(i as int).push(
            commit_type_spec(changes@[i as int].title@),
        ));
        i = i + 1;
    }
    assert(author_keys(changes@).take(changes@.len() as int) =~= author_keys(changes@));
    assert(type_keys(changes@).take(changes@.len() as int) =~= type_keys(changes@));
    let (a, ac) = tally(&authors);
    let (t, tc) = tally(&types);
    let n = changes.len();
    CommitStats {
        total_commits: n,
        authors: a,
        author_counts: ac,
        types: t,
        type_counts: tc,
        first_commit_date: if n > 0 {
            Some(changes[0].date.clone())
        } else {
            None
        },
        last_commit_date: if n > 0 {
            Some(changes[n - 1].date.clone())
        } else {
            None
        },
    }
}

/// A commit touched something inside directory `dir` (not `dir` itself, and
/// never the repository root).
pub open spec fn touches_directory(affected: Seq<Seq<char>>, dir: Seq<char>) -> bool {
    dir.len() > 0 && exists|i: int| 0 <= i < affected.len() && is_strictly_within(#[trigger] affected[i], dir)
}

/// The commits of `records[..n]`, in order, that touched something inside `dir`.
pub open spec fn history_spec(records: Seq<CommitRecord>, dir: Seq<char>, n: int) -> Seq<CommitRecord>
    decreases n,
{
    if n <= 0 {
        Seq::empty()
    } else {
        let prev = history_spec(records, dir, n - 1);
        if touches_directory(views(records[n - 1].affected@), dir) {
            prev.push(records[n - 1])
        } else {
            prev
        }
    }
}

impl CommitRecord {
    /// A copy of the record.
    pub fn duplicate(&self) -> (r: CommitRecord)
        ensures
            r.change == self.change,
            views(r.affected@) == views(self.affected@),
    {
        let mut affected: Vec<String> = Vec::new();
        let mut i: usize = 0;
        while i < self.affected.len()
            invariant
                i <= self.affected@.len(),
                views(affected@) == views(self.affected@).take(i as int),
            decreases self.affected@.len() - i,
        {
            let ghost before = views(affected@);
            affected.push(self.affected[i].clone());
            assert(views(affected@) =~= before.push(self.affected@[i as int]@));
            i = i + 1;
            assert(views(self.affected@).take(i as int) =~= views(self.affected@).take(i - 1).push(
                self.affected@[i - 1]@,
            ));
        }
        assert(views(self.affected@).take(self.affected@.len() as int) =~= views(self.affected@));
        CommitRecord { change: self.change.duplicate(), affected }
    }
}

pub open spec fn same_records(a: Seq<CommitRecord>, b: Seq<CommitRecord>) -> bool {
    &&& a.len() == b.len()
    &&& forall|i: int|
        0 <= i < a.len() ==> (#[trigger] a[i]).change == b[i].change && views(a[i].affected@)
            == views(b[i].affected@)
}

/// The commits that touched something inside the directory `dir` (a path
/// relative to the repository root), oldest first as in `records`.
pub fn history_for_directory(records: &Vec<CommitRecord>, dir: &str) -> (r: Vec<CommitRecord>)
    ensures
        same_records(r@, history_spec(records@, dir@, records@.len() as int)),
{
    let d = chars_of(dir);
    let mut out: Vec<CommitRecord> = Vec::new();
    let mut i: usize = 0;
    while i < records.len()
        invariant
            i <= records@.len(),
            d@ == dir@,
            same_records(out@, history_spec(records@, dir@, i as int)),
        decreases records@.len() - i,
    {
        let rec = &records[i];
        let mut hit = false;
        if d.len() > 0 {
            let mut k: usize = 0;
            while k < rec.affected.len() && !hit
                invariant
                    k <= rec.affected@.len(),
                    d@ == dir@,
                    !hit ==> forall|m: int|
                        0 <= m < k ==> !is_strictly_within(rec.affected@[m]@, dir@),
                    hit ==> exists|m: int|
                        0 <= m < rec.affected@.len() && is_strictly_within(rec.affected@[m]@, dir@),
                decreases rec.affected@.len() - k + if hit {
                    0int
                } else {
                    1int
                },
            {
                let p = chars_of(rec.affected[k].as_str());
                if within_vec(&p, &d) && !eq_vec(&p, &d) {
                    hit = true;
                } else {
                    k = k + 1;
                }
            }
        }
        proof {
            if hit {
                let m = choose|m: int|
                    0 <= m < rec.affected@.len() && is_strictly_within(rec.affected@[m]@, dir@);
                assert(views(rec.affected@)[m] == rec.affected@[m]@);
            } else if d@.len() > 0 {
                assert forall|m: int| 0 <= m < views(rec.affected@).len() implies !is_strictly_within(
                    #[trigger] views(rec.affected@)[m],
                    dir@,
                ) by {
                    assert(views(rec.affected@)[m] == rec.affected@[m]@);
                }
            }
        }
        let ghost before = out@;
        if hit {
            out.push(rec.duplicate());
            assert forall|j: int| 0 <= j < out@.len() implies (#[trigger] out@[j]).change
                == history_spec(records@, dir@, i + 1)[j].change && views(out@[j].affected@)
                == views(history_spec(records@, dir@, i + 1)[j].affected@) by {
                if j < before.len() {
                    assert(out@[j] == before[j]);
                }
            }
        }
        i = i + 1;
    }
    out
}

} // verus!
