//! Coverage figures as counts: per file and aggregated, with the merge of two
//! reports. Percentages are derived from these counts where they are shown.
use crate::paths::{is_within, within_vec};
use crate::reports::{fc_view, fc_views, FcView, FileCoverage};
use crate::text::{chars_of, eq_vec, trim_start_seq, trim_start_seq_spec};
use crate::tree::{sat, Feature};
use vstd::prelude::*;

verus! {

/// Line and branch counts of one file.
#[derive(Debug, Clone, Copy, PartialEq, Eq, Structural)]
pub struct FileCoverageStats {
    pub lines_total: usize,
    pub lines_covered: usize,
    pub lines_missed: usize,
    pub branches_total: Option<usize>,
    pub branches_covered: Option<usize>,
}

impl FileCoverageStats {
    /// All counts zero, no branch figures.
    pub fn new() -> (r: FileCoverageStats)
        ensures
            r.lines_total == 0 && r.lines_covered == 0 && r.lines_missed == 0,
            r.branches_total is None && r.branches_covered is None,
    {
        FileCoverageStats {
            lines_total: 0,
            lines_covered: 0,
            lines_missed: 0,
            branches_total: None,
            branches_covered: None,
        }
    }
}

/// Aggregated line and branch counts, with the figures of each file.
#[derive(Debug, Clone)]
pub struct CoverageStats {
    pub lines_total: usize,
    pub lines_covered: usize,
    pub lines_missed: usize,
    pub branches_total: Option<usize>,
    pub branches_covered: Option<usize>,
    pub files: Vec<(String, FileCoverageStats)>,
}

pub open spec fn file_entries(v: Seq<(String, FileCoverageStats)>) -> Seq<(Seq<char>, FileCoverageStats)> {
    v.map_values(|e: (String, FileCoverageStats)| (e.0@, e.1))
}

/// `a - b`, or 0 when `b` exceeds `a`.
pub open spec fn saturating_sub(a: usize, b: usize) -> usize {
    if a >= b {
        (a - b) as usize
    } else {
        0
    }
}

/// Adds an optional count to another: absent on the right leaves the left as it is.
pub open spec fn add_opt(a: Option<usize>, b: Option<usize>) -> Option<usize> {
    match b {
        Some(y) => Some(
            sat(
                match a {
                    Some(x) => x as nat,
                    None => 0nat,
                } + y as nat,
            ) as usize,
        ),
        None => a,
    }
}

fn add_sat(a: usize, b: usize) -> (r: usize)
    ensures
        r as nat == sat(a as nat + b as nat),
{
    if a > usize::MAX - b {
        usize::MAX
    } else {
        a + b
    }
}

fn add_opt_exec(a: Option<usize>, b: Option<usize>) -> (r: Option<usize>)
    ensures
        r == add_opt(a, b),
{
    match b {
        Some(y) => Some(
            add_sat(
                match a {
                    Some(x) => x,
                    None => 0,
                },
                y,
            ),
        ),
        None => a,
    }
}

/// The file entries of `base` with each entry of `extra` put in: a path
/// already present takes the new figures in place, a new path goes last.
pub open spec fn put_files(
    base: Seq<(Seq<char>, FileCoverageStats)>,
    extra: Seq<(Seq<char>, FileCoverageStats)>,
) -> Seq<(Seq<char>, FileCoverageStats)>
    decreases extra.len(),
{
    if extra.len() == 0 {
        base
    } else {
        put_one(put_files(base, extra.drop_last()), extra.last())
    }
}

pub open spec fn index_of_path(v: Seq<(Seq<char>, FileCoverageStats)>, p: Seq<char>, i: int) -> Option<int>
    decreases v.len() - i,
{
    if i < 0 || i >= v.len() {
        None
    } else if v[i].0 == p {
        Some(i)
    } else {
        index_of_path(v, p, i + 1)
    }
}

pub open spec fn put_one(
    v: Seq<(Seq<char>, FileCoverageStats)>,
    e: (Seq<char>, FileCoverageStats),
) -> Seq<(Seq<char>, FileCoverageStats)> {
    match index_of_path(v, e.0, 0) {
        Some(i) => v.update(i, e),
        None => v.push(e),
    }
}

pub proof fn lemma_index_of_path_bounds(v: Seq<(Seq<char>, FileCoverageStats)>, p: Seq<char>, i: int)
    ensures
        match index_of_path(v, p, i) {
            Some(k) => i <= k < v.len() && v[k].0 == p,
            None => true,
        },
    decreases v.len() - i,
{
    if 0 <= i < v.len() && v[i].0 != p {
        lemma_index_of_path_bounds(v, p, i + 1);
    }
}

/// Coverage counts as plain values: line total, covered, missed, branch
/// total and covered, and the file entries.
pub type CovView = (usize, usize, usize, Option<usize>, Option<usize>, Seq<(Seq<char>, FileCoverageStats)>);

pub open spec fn cov_view(c: CoverageStats) -> CovView {
    (c.lines_total, c.lines_covered, c.lines_missed, c.branches_total, c.branches_covered, file_entries(c.files@))
}

pub open spec fn empty_cov() -> CovView {
    (0, 0, 0, None, None, Seq::empty())
}

/// What merging `b` into `a` gives (see `CoverageStats::merge`).
pub open spec fn merge_view(a: CovView, b: CovView) -> CovView {
    let lt = sat(a.0 as nat + b.0 as nat) as usize;
    let lc = sat(a.1 as nat + b.1 as nat) as usize;
    (lt, lc, saturating_sub(lt, lc), add_opt(a.3, b.3), add_opt(a.4, b.4), put_files(a.5, b.5))
}

/// Puts the figures of file `p` into `files`: in place when the path is there, else last.
fn put_file(files: &mut Vec<(String, FileCoverageStats)>, p: &String, st: FileCoverageStats)
    ensures
        file_entries(final(files)@) == put_one(file_entries(old(files)@), (p@, st)),
{
    let ghost before = file_entries(files@);
    let pv = chars_of(p.as_str());
    let mut j: usize = 0;
    let mut found = false;
    while j < files.len() && !found
        invariant
            j <= files@.len(),
            before == file_entries(files@),
            pv@ == p@,
            index_of_path(before, p@, 0) == if found {
                Some(j as int)
            } else {
                index_of_path(before, p@, j as int)
            },
            found ==> j < files@.len(),
        decreases files@.len() - j + if found {
            0int
        } else {
            1int
        },
    {
        assert(before[j as int] == (files@[j as int].0@, files@[j as int].1));
        if eq_vec(&chars_of(files[j].0.as_str()), &pv) {
            found = true;
        } else {
            j = j + 1;
        }
    }
    if found {
        files.set(j, (p.clone(), st));
        assert(file_entries(files@) =~= before.update(j as int, (p@, st)));
    } else {
        files.push((p.clone(), st));
        assert(file_entries(files@) =~= before.push((p@, st)));
    }
}

impl CoverageStats {
    /// No lines, no branches, no files.
    pub fn new() -> (r: CoverageStats)
        ensures
            r.lines_total == 0 && r.lines_covered == 0 && r.lines_missed == 0,
            r.branches_total is None && r.branches_covered is None,
            r.files@.len() == 0,
    {
        CoverageStats {
            lines_total: 0,
            lines_covered: 0,
            lines_missed: 0,
            branches_total: None,
            branches_covered: None,
            files: Vec::new(),
        }
    }

    /// Adds the counts of `other` to these: line totals and covered lines are
    /// summed, missed lines recomputed from them, branch counts summed where
    /// `other` has them, and the file entries of `other` put in (a file already
    /// present takes the figures of `other`).
    pub fn merge(&mut self, other: &CoverageStats)
        ensures
            final(self).lines_total == sat(old(self).lines_total as nat + other.lines_total as nat),
            final(self).lines_covered == sat(
                old(self).lines_covered as nat + other.lines_covered as nat,
            ),
            final(self).lines_missed == saturating_sub(
                final(self).lines_total,
                final(self).lines_covered,
            ),
            final(self).branches_total == add_opt(old(self).branches_total, other.branches_total),
            final(self).branches_covered == add_opt(
                old(self).branches_covered,
                other.branches_covered,
            ),
            file_entries(final(self).files@) == put_files(
                file_entries(old(self).files@),
                file_entries(other.files@),
            ),
            cov_view(*final(self)) == merge_view(cov_view(*old(self)), cov_view(*other)),
            unique_keys(file_entries(old(self).files@)) ==> unique_keys(
                file_entries(final(self).files@),
            ),
    {
        proof {
            if unique_keys(file_entries(self.files@)) {
                lemma_put_files_unique(file_entries(self.files@), file_entries(other.files@));
            }
        }
        let ghost start = file_entries(self.files@);
        let mut i: usize = 0;
        while i < other.files.len()
            invariant
                i <= other.files@.len(),
                self.lines_total == old(self).lines_total,
                self.lines_covered == old(self).lines_covered,
                self.branches_total == old(self).branches_total,
                self.branches_covered == old(self).branches_covered,
                file_entries(self.files@) == put_files(
                    start,
                    file_entries(other.files@).take(i as int),
                ),
            decreases other.files@.len() - i,
        {
            assert(file_entries(other.files@).take(i + 1).drop_last() =~= file_entries(
                other.files@,
            ).take(i as int));
            assert(file_entries(other.files@).take(i + 1).last() == (
                other.files@[i as int].0@,
                other.files@[i as int].1,
            ));
            put_file(&mut self.files, &other.files[i].0, other.files[i].1);
            i = i + 1;
        }
        assert(file_entries(other.files@).take(other.files@.len() as int) =~= file_entries(
            other.files@,
        ));
        self.lines_total = add_sat(self.lines_total, other.lines_total);
        self.lines_covered = add_sat(self.lines_covered, other.lines_covered);
        self.lines_missed = if self.lines_total >= self.lines_covered {
            self.lines_total - self.lines_covered
        } else {
            0
        };
        self.branches_total = add_opt_exec(self.branches_total, other.branches_total);
        self.branches_covered = add_opt_exec(self.branches_covered, other.branches_covered);
    }
}

/// The figures of one report record as file-level statistics.
pub open spec fn file_stats_of(fc: FcView) -> FileCoverageStats {
    FileCoverageStats {
        lines_total: fc.1,
        lines_covered: fc.2,
        lines_missed: saturating_sub(fc.1, fc.2),
        branches_total: if fc.3 > 0 {
            Some(fc.3)
        } else {
            None
        },
        branches_covered: if fc.3 > 0 {
            Some(fc.4)
        } else {
            None
        },
    }
}

/// A record added to the statistics of its file: totals summed, its own
/// entry put in.
pub open spec fn add_record(cv: CovView, fc: FcView) -> CovView {
    (
        sat(cv.0 as nat + fc.1 as nat) as usize,
        sat(cv.1 as nat + fc.2 as nat) as usize,
        sat(cv.2 as nat + saturating_sub(fc.1, fc.2) as nat) as usize,
        if fc.3 > 0 {
            add_opt(cv.3, Some(fc.3))
        } else {
            cv.3
        },
        if fc.3 > 0 {
            add_opt(cv.4, Some(fc.4))
        } else {
            cv.4
        },
        put_one(cv.5, (fc.0, file_stats_of(fc))),
    )
}

pub open spec fn key_index(m: Seq<(Seq<char>, CovView)>, k: Seq<char>, i: int) -> Option<int>
    decreases m.len() - i,
{
    if i < 0 || i >= m.len() {
        None
    } else if m[i].0 == k {
        Some(i)
    } else {
        key_index(m, k, i + 1)
    }
}

pub proof fn lemma_key_index_bounds(m: Seq<(Seq<char>, CovView)>, k: Seq<char>, i: int)
    ensures
        match key_index(m, k, i) {
            Some(j) => i <= j < m.len() && m[j].0 == k,
            None => true,
        },
    decreases m.len() - i,
{
    if 0 <= i < m.len() && m[i].0 != k {
        lemma_key_index_bounds(m, k, i + 1);
    }
}

/// `f` applied to the entry under `k`, which is created empty when missing.
pub open spec fn upsert(m: Seq<(Seq<char>, CovView)>, k: Seq<char>, f: spec_fn(CovView) -> CovView) -> Seq<
    (Seq<char>, CovView),
> {
    match key_index(m, k, 0) {
        Some(i) => m.update(i, (k, f(m[i].1))),
        None => m.push((k, f(empty_cov()))),
    }
}

pub open spec fn map_views(m: Seq<(String, CoverageStats)>) -> Seq<(Seq<char>, CovView)> {
    m.map_values(|e: (String, CoverageStats)| (e.0@, cov_view(e.1)))
}

/// The per-file statistics after the records `fcs[..n]` are added.
pub open spec fn records_fold(m: Seq<(Seq<char>, CovView)>, fcs: Seq<FcView>, n: int) -> Seq<
    (Seq<char>, CovView),
>
    decreases n,
{
    if n <= 0 {
        m
    } else {
        let prev = records_fold(m, fcs, n - 1);
        upsert(prev, fcs[n - 1].0, |cv: CovView| add_record(cv, fcs[n - 1]))
    }
}

fn find_key(m: &Vec<(String, CoverageStats)>, k: &String) -> (r: Option<usize>)
    ensures
        match r {
            Some(i) => key_index(map_views(m@), k@, 0) == Some(i as int),
            None => key_index(map_views(m@), k@, 0) is None,
        },
{
    let kv = chars_of(k.as_str());
    let mut i: usize = 0;
    while i < m.len()
        invariant
            i <= m@.len(),
            kv@ == k@,
            key_index(map_views(m@), k@, 0) == key_index(map_views(m@), k@, i as int),
        decreases m@.len() - i,
    {
        assert(map_views(m@)[i as int] == (m@[i as int].0@, cov_view(m@[i as int].1)));
        if eq_vec(&chars_of(m[i].0.as_str()), &kv) {
            return Some(i);
        }
        i = i + 1;
    }
    None
}

fn sub_sat(a: usize, b: usize) -> (r: usize)
    ensures
        r == saturating_sub(a, b),
{
    if a >= b {
        a - b
    } else {
        0
    }
}

fn add_record_exec(st: &mut CoverageStats, fc: &FileCoverage)
    ensures
        cov_view(*final(st)) == add_record(cov_view(*old(st)), fc_view(*fc)),
{
    let missed = sub_sat(fc.lines_total, fc.lines_covered);
    let has_branches = fc.branches_total > 0;
    let file_stats = FileCoverageStats {
        lines_total: fc.lines_total,
        lines_covered: fc.lines_covered,
        lines_missed: missed,
        branches_total: if has_branches {
            Some(fc.branches_total)
        } else {
            None
        },
        branches_covered: if has_branches {
            Some(fc.branches_covered)
        } else {
            None
        },
    };
    put_file(&mut st.files, &fc.path, file_stats);
    st.lines_total = add_sat(st.lines_total, fc.lines_total);
    st.lines_covered = add_sat(st.lines_covered, fc.lines_covered);
    st.lines_missed = add_sat(st.lines_missed, missed);
    if has_branches {
        st.branches_total = add_opt_exec(st.branches_total, Some(fc.branches_total));
        st.branches_covered = add_opt_exec(st.branches_covered, Some(fc.branches_covered));
    }
}

/// Adds report records to per-file statistics keyed by file path: each record
/// is summed into the entry of its path (created when missing) and stored as
/// that file's figures.
pub fn merge_file_coverage(coverage_map: &mut Vec<(String, CoverageStats)>, file_coverage: &Vec<FileCoverage>)
    ensures
        map_views(final(coverage_map)@) == records_fold(
            map_views(old(coverage_map)@),
            fc_views(file_coverage@),
            file_coverage@.len() as int,
        ),
        unique_keys(map_views(old(coverage_map)@)) ==> unique_keys(map_views(final(coverage_map)@)),
{
    proof {
        if unique_keys(map_views(coverage_map@)) {
            lemma_records_fold_unique(
                map_views(coverage_map@),
                fc_views(file_coverage@),
                file_coverage@.len() as int,
            );
        }
    }
    let ghost start = map_views(coverage_map@);
    let mut i: usize = 0;
    while i < file_coverage.len()
        invariant
            i <= file_coverage@.len(),
            map_views(coverage_map@) == records_fold(start, fc_views(file_coverage@), i as int),
        decreases file_coverage@.len() - i,
    {
        let fc = &file_coverage[i];
        let ghost before = map_views(coverage_map@);
        assert(fc_views(file_coverage@)[i as int] == fc_view(*fc));
        match find_key(coverage_map, &fc.path) {
            Some(k) => {
                proof {
                    lemma_key_index_bounds(before, fc.path@, 0);
                }
                let (key, mut st) = coverage_map.remove(k);
                add_record_exec(&mut st, fc);
                coverage_map.insert(k, (key, st));
                assert(map_views(coverage_map@) =~= before.update(
                    k as int,
                    (fc.path@, add_record(before[k as int].1, fc_view(*fc))),
                ));
            },
            None => {
                let mut st = CoverageStats::new();
                assert(file_entries(st.files@) =~= Seq::<(Seq<char>, FileCoverageStats)>::empty());
                add_record_exec(&mut st, fc);
                coverage_map.push((fc.path.clone(), st));
                assert(map_views(coverage_map@) =~= before.push(
                    (fc.path@, add_record(empty_cov(), fc_view(*fc))),
                ));
            },
        }
        i = i + 1;
    }
}

/// A report path without leading `./` and with `/` for `\`.
pub open spec fn normalize_path_spec(p: Seq<char>) -> Seq<char> {
    trim_start_seq_spec(p, "./"@).map_values(|c: char| if c == '\\' { '/' } else { c })
}

/// Normalizes a report path: leading `./` removed, backslashes made slashes.
pub fn normalize_path(path: &str) -> (r: String)
    ensures
        r@ == normalize_path_spec(path@),
{
    let t = trim_start_seq(&chars_of(path), &chars_of("./"));
    let mut out: Vec<char> = Vec::new();
    let mut i: usize = 0;
    while i < t.len()
        invariant
            i <= t@.len(),
            out@ == t@.take(i as int).map_values(|c: char| if c == '\\' { '/' } else { c }),
        decreases t@.len() - i,
    {
        let c = t[i];
        out.push(if c == '\\' { '/' } else { c });
        i = i + 1;
        assert(out@ =~= t@.take(i as int).map_values(|c: char| if c == '\\' { '/' } else { c }));
    }
    assert(t@.take(t@.len() as int) =~= t@);
    crate::text::string_of(out.as_slice())
}

/// The name of the most specific feature of `fs` (from index `i` on) whose
/// directory, its path normalized as report paths are, holds `target`.
pub open spec fn feature_for_file_from(fs: Seq<Feature>, target: Seq<char>, i: int) -> Option<
    Seq<char>,
>
    decreases fs, fs.len() - i,
{
    if i < 0 || i >= fs.len() {
        None
    } else if is_within(target, normalize_path_spec(fs[i].path@)) {
        match feature_for_file_from(fs[i].features@, target, 0) {
            Some(x) => Some(x),
            None => Some(fs[i].name@),
        }
    } else {
        feature_for_file_from(fs, target, i + 1)
    }
}

fn feature_for_file(fs: &Vec<Feature>, target: &Vec<char>) -> (r: Option<String>)
    ensures
        match r {
            Some(n) => feature_for_file_from(fs@, target@, 0) == Some(n@),
            None => feature_for_file_from(fs@, target@, 0) is None,
        },
    decreases fs@,
{
    let mut i: usize = 0;
    while i < fs.len()
        invariant
            i <= fs@.len(),
            feature_for_file_from(fs@, target@, 0) == feature_for_file_from(fs@, target@, i as int),
        decreases fs@.len() - i,
    {
        let f = &fs[i];
        let fp = normalize_path(f.path.as_str());
        if within_vec(target, &chars_of(fp.as_str())) {
            assert(decreases_to!(fs@ => fs@[i as int].features@));
            return match feature_for_file(&f.features, target) {
                Some(x) => Some(x),
                None => Some(f.name.clone()),
            };
        }
        i = i + 1;
    }
    None
}

/// No two entries of `m` share a key.
pub open spec fn unique_keys<V>(m: Seq<(Seq<char>, V)>) -> bool {
    forall|a: int, b: int| 0 <= a < b < m.len() ==> m[a].0 != m[b].0
}

proof fn lemma_index_of_path_none(v: Seq<(Seq<char>, FileCoverageStats)>, p: Seq<char>, i: int)
    requires
        0 <= i,
        index_of_path(v, p, i) is None,
    ensures
        forall|j: int| i <= j < v.len() ==> v[j].0 != p,
    decreases v.len() - i,
{
    if i < v.len() {
        lemma_index_of_path_none(v, p, i + 1);
    }
}

proof fn lemma_put_one_unique(v: Seq<(Seq<char>, FileCoverageStats)>, e: (Seq<char>, FileCoverageStats))
    requires
        unique_keys(v),
    ensures
        unique_keys(put_one(v, e)),
{
    lemma_index_of_path_bounds(v, e.0, 0);
    if index_of_path(v, e.0, 0) is None {
        lemma_index_of_path_none(v, e.0, 0);
    }
}

proof fn lemma_put_files_unique(
    base: Seq<(Seq<char>, FileCoverageStats)>,
    extra: Seq<(Seq<char>, FileCoverageStats)>,
)
    requires
        unique_keys(base),
    ensures
        unique_keys(put_files(base, extra)),
    decreases extra.len(),
{
    if extra.len() > 0 {
        lemma_put_files_unique(base, extra.drop_last());
        lemma_put_one_unique(put_files(base, extra.drop_last()), extra.last());
    }
}

proof fn lemma_key_index_none(m: Seq<(Seq<char>, CovView)>, k: Seq<char>, i: int)
    requires
        0 <= i,
        key_index(m, k, i) is None,
    ensures
        forall|j: int| i <= j < m.len() ==> m[j].0 != k,
    decreases m.len() - i,
{
    if i < m.len() {
        lemma_key_index_none(m, k, i + 1);
    }
}

proof fn lemma_upsert_unique(m: Seq<(Seq<char>, CovView)>, k: Seq<char>, f: spec_fn(CovView) -> CovView)
    requires
        unique_keys(m),
    ensures
        unique_keys(upsert(m, k, f)),
{
    lemma_key_index_bounds(m, k, 0);
    if key_index(m, k, 0) is None {
        lemma_key_index_none(m, k, 0);
    }
}

proof fn lemma_records_fold_unique(m: Seq<(Seq<char>, CovView)>, fcs: Seq<FcView>, n: int)
    requires
        unique_keys(m),
    ensures
        unique_keys(records_fold(m, fcs, n)),
    decreases n,
{
    if n > 0 {
        lemma_records_fold_unique(m, fcs, n - 1);
        lemma_upsert_unique(
            records_fold(m, fcs, n - 1),
            fcs[n - 1].0,
            |cv: CovView| add_record(cv, fcs[n - 1]),
        );
    }
}

/// The per-feature statistics after the file entries `cov[..n]` are merged
/// into the feature that encloses each file, keyed by feature name (files
/// outside every feature are left out).
pub open spec fn features_fold(
    features: Seq<Feature>,
    cov: Seq<(Seq<char>, CovView)>,
    n: int,
) -> Seq<(Seq<char>, CovView)>
    decreases n,
{
    if n <= 0 {
        Seq::empty()
    } else {
        let prev = features_fold(features, cov, n - 1);
        match feature_for_file_from(features, normalize_path_spec(cov[n - 1].0), 0) {
            Some(name) => upsert(prev, name, |cv: CovView| merge_view(cv, cov[n - 1].1)),
            None => prev,
        }
    }
}

proof fn lemma_features_fold_unique(features: Seq<Feature>, cov: Seq<(Seq<char>, CovView)>, n: int)
    ensures
        unique_keys(features_fold(features, cov, n)),
    decreases n,
{
    if n > 0 {
        lemma_features_fold_unique(features, cov, n - 1);
        match feature_for_file_from(features, normalize_path_spec(cov[n - 1].0), 0) {
            Some(name) => {
                lemma_upsert_unique(
                    features_fold(features, cov, n - 1),
                    name,
                    |cv: CovView| merge_view(cv, cov[n - 1].1),
                );
            },
            None => {},
        }
    }
}

/// Coverage by feature name: each file's statistics merged into the most
/// specific feature whose directory holds the file; each name once.
pub fn map_coverage_to_features(features: &Vec<Feature>, coverage: &Vec<(String, CoverageStats)>) -> (r:
    Vec<(String, CoverageStats)>)
    ensures
        map_views(r@) == features_fold(features@, map_views(coverage@), coverage@.len() as int),
        unique_keys(map_views(r@)),
{
    let mut out: Vec<(String, CoverageStats)> = Vec::new();
    let mut i: usize = 0;
    assert(map_views(out@) =~= Seq::<(Seq<char>, CovView)>::empty());
    while i < coverage.len()
        invariant
            i <= coverage@.len(),
            map_views(out@) == features_fold(features@, map_views(coverage@), i as int),
        decreases coverage@.len() - i,
    {
        let ghost before = map_views(out@);
        assert(map_views(coverage@)[i as int] == (coverage@[i as int].0@, cov_view(coverage@[i as int].1)));
        let path = normalize_path(coverage[i].0.as_str());
        match feature_for_file(features, &chars_of(path.as_str())) {
            Some(key) => {
                match find_key(&out, &key) {
                    Some(k) => {
                        proof {
                            lemma_key_index_bounds(before, key@, 0);
                        }
                        let (kk, mut st) = out.remove(k);
                        st.merge(&coverage[i].1);
                        out.insert(k, (kk, st));
                        assert(map_views(out@) =~= before.update(
                            k as int,
                            (key@, merge_view(before[k as int].1, cov_view(coverage@[i as int].1))),
                        ));
                    },
                    None => {
                        let mut st = CoverageStats::new();
                        assert(file_entries(st.files@) =~= Seq::<(Seq<char>, FileCoverageStats)>::empty());
                        st.merge(&coverage[i].1);
                        out.push((key, st));
                        assert(map_views(out@) =~= before.push(
                            (key@, merge_view(empty_cov(), cov_view(coverage@[i as int].1))),
                        ));
                    },
                }
            },
            None => {},
        }
        i = i + 1;
    }
    proof {
        lemma_features_fold_unique(features@, map_views(coverage@), coverage@.len() as int);
    }
    out
}

} // verus!
