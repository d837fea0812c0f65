//! Per-file scanning: the imports of a source file, its metadata comments
//! and the feature each comment belongs to.
use crate::commits::{tally, views};
use crate::import_detector::{
    extract_import, get_import_pattern, import_pattern_spec, import_spec, ImportStatement,
};
use crate::metadata::{
    check_line_for_feature_metadata, comment_patterns_spec, get_comment_patterns, key_index_from,
    line_metadata_spec, lookup_spec, property_entries, FeatureMetadataComment,
};
use crate::paths::{extension_spec, file_extension, file_name_spec, file_name_vec};
use crate::resolver::{join_segments, join_vec};
use crate::text::{chars_of, eq_vec, split_chars, split_spec, string_of, trim, trim_spec, vviews};
use indexmap::IndexMap;
use vstd::prelude::*;

verus! {

pub open spec fn import_view(s: ImportStatement) -> (Seq<char>, usize, Seq<char>, Seq<char>) {
    (s.file_path@, s.line_number, s.line_content@, s.imported_path@)
}

pub open spec fn import_views(v: Seq<ImportStatement>) -> Seq<(Seq<char>, usize, Seq<char>, Seq<char>)> {
    v.map_values(|s: ImportStatement| import_view(s))
}

/// The imports of the file `path` whose lines are `lines`: for each line that
/// the extension's grammar accepts, its 1-based number, the trimmed line and
/// the imported path.
pub open spec fn imports_spec(path: Seq<char>, lines: Seq<Seq<char>>) -> Seq<
    (Seq<char>, usize, Seq<char>, Seq<char>),
>
    decreases lines.len(),
{
    if lines.len() == 0 {
        Seq::empty()
    } else {
        let prev = imports_spec(path, lines.drop_last());
        match import_pattern_spec(extension_spec(path)) {
            Some(pat) => match import_spec(lines.last(), pat) {
                Some(imp) => prev.push((path, lines.len() as usize, trim_spec(lines.last()), imp)),
                None => prev,
            },
            None => prev,
        }
    }
}

/// The import statements of one file, given its path and its lines; files
/// without an import grammar give none.
pub fn scan_file_for_imports(file_path: &str, lines: &Vec<String>) -> (r: Vec<ImportStatement>)
    ensures
        import_views(r@) == imports_spec(file_path@, views(lines@)),
{
    let mut out: Vec<ImportStatement> = Vec::new();
    let ext = file_extension(file_path);
    let pattern = get_import_pattern(ext.as_str());
    let mut i: usize = 0;
    while i < lines.len()
        invariant
            i <= lines@.len(),
            pattern == import_pattern_spec(extension_spec(file_path@)),
            import_views(out@) == imports_spec(file_path@, views(lines@).take(i as int)),
        decreases lines@.len() - i,
    {
        let ghost before = import_views(out@);
        assert(views(lines@).take(i + 1).drop_last() =~= views(lines@).take(i as int));
        assert(views(lines@).take(i + 1).last() == lines@[i as int]@);
        match pattern {
            Some(pat) => match extract_import(lines[i].as_str(), pat) {
                Some(imported) => {
                    let content = trim(&chars_of(lines[i].as_str()));
                    out.push(
                        ImportStatement {
                            file_path: string_of(chars_of(file_path).as_slice()),
                            line_number: i + 1,
                            line_content: string_of(content.as_slice()),
                            imported_path: imported,
                        },
                    );
                    assert(import_views(out@) =~= before.push(
                        (file_path@, (i + 1) as usize, trim_spec(lines@[i as int]@), imported@),
                    ));
                },
                None => {},
            },
            None => {},
        }
        i = i + 1;
    }
    assert(views(lines@).take(lines@.len() as int) =~= views(lines@));
    out
}

/// The last index below `i` of a `features` segment that has a segment after it.
pub open spec fn features_segment_before(segs: Seq<Seq<char>>, i: int) -> Option<int>
    decreases i,
{
    if i <= 0 {
        None
    } else if i < segs.len() && segs[i - 1] == "features"@ {
        Some(i - 1)
    } else {
        features_segment_before(segs, i - 1)
    }
}

/// The feature a file lies in by the layout convention: the path up to the
/// segment after the nearest enclosing `features` directory
/// (`src/features/auth/a.ts` gives `src/features/auth`,
/// `features/a/features/b/x.ts` gives `features/a/features/b`).
pub open spec fn inferred_feature_spec(path: Seq<char>) -> Option<Seq<char>> {
    let segs = split_spec(path, '/');
    match features_segment_before(segs, segs.len() as int) {
        Some(i) => Some(join_segments(segs.take(i + 2))),
        None => None,
    }
}

/// The feature path that a file's location implies, from its path relative to
/// the scan root.
pub fn infer_feature_path_from_file(relative_path: &str) -> (r: Option<String>)
    ensures
        match r {
            Some(p) => inferred_feature_spec(relative_path@) == Some(p@),
            None => inferred_feature_spec(relative_path@) is None,
        },
{
    let segs = split_chars(&chars_of(relative_path), '/');
    let features = chars_of("features");
    let n = segs.len();
    let mut i: usize = n;
    while i > 0
        invariant
            i <= n == segs@.len(),
            vviews(segs@) == split_spec(relative_path@, '/'),
            features@ == "features"@,
            features_segment_before(vviews(segs@), n as int) == features_segment_before(
                vviews(segs@),
                i as int,
            ),
        decreases i,
    {
        if i < n && eq_vec(&segs[i - 1], &features) {
            let mut prefix: Vec<Vec<char>> = Vec::new();
            let mut j: usize = 0;
            let lim: usize = i + 1;
            while j < lim
                invariant
                    lim == i + 1,
                    j <= lim <= segs@.len(),
                    vviews(prefix@) == vviews(segs@).take(j as int),
                decreases lim - j,
            {
                let seg = crate::text::slice(&segs[j], 0, segs[j].len());
                assert(seg@ =~= segs@[j as int]@);
                let ghost before = vviews(prefix@);
                prefix.push(seg);
                assert(vviews(prefix@) =~= before.push(vviews(segs@)[j as int]));
                j = j + 1;
                assert(vviews(prefix@) =~= vviews(segs@).take(j as int));
            }
            return Some(string_of(join_vec(&prefix).as_slice()));
        }
        i = i - 1;
    }
    None
}

/// The value under `key` in a property map.
fn property_value(m: &IndexMap<String, String>, key: &str) -> (r: Option<String>)
    ensures
        match r {
            Some(v) => lookup_spec(property_entries(*m), key@) == Some(v@),
            None => lookup_spec(property_entries(*m), key@) is None,
        },
{
    let n = crate::metadata::property_count_of(m);
    let k = chars_of(key);
    let mut i: usize = 0;
    while i < n
        invariant
            i <= n == property_entries(*m).len(),
            k@ == key@,
            key_index_from(property_entries(*m), key@, 0) == key_index_from(
                property_entries(*m),
                key@,
                i as int,
            ),
        decreases n - i,
    {
        let (ek, ev) = crate::metadata::property_entry(m, i);
        if eq_vec(&chars_of(ek.as_str()), &k) {
            return Some(ev);
        }
        i = i + 1;
    }
    None
}

/// The feature a metadata comment belongs to: its `feature` property, else
/// the one its file's location implies.
pub open spec fn comment_target_spec(
    path: Seq<char>,
    props: Seq<(Seq<char>, Seq<char>)>,
) -> Option<Seq<char>> {
    match lookup_spec(props, "feature"@) {
        Some(f) => Some(f),
        None => inferred_feature_spec(path),
    }
}

pub open spec fn comment_view(c: FeatureMetadataComment) -> (Seq<char>, usize, Seq<char>, Seq<
    (Seq<char>, Seq<char>),
>) {
    (c.file_path@, c.line_number, c.metadata_key@, property_entries(c.properties))
}

/// The metadata comments of the file `path` (relative to the scan root) with
/// lines `lines`, each with the feature it belongs to; comments that belong to
/// no feature are left out.
pub open spec fn file_metadata_spec(path: Seq<char>, lines: Seq<Seq<char>>) -> Seq<
    (Seq<char>, (Seq<char>, usize, Seq<char>, Seq<(Seq<char>, Seq<char>)>)),
>
    decreases lines.len(),
{
    if lines.len() == 0 {
        Seq::empty()
    } else {
        let prev = file_metadata_spec(path, lines.drop_last());
        match line_metadata_spec(lines.last(), comment_patterns_spec(extension_spec(path))) {
            Some((key, props)) => match comment_target_spec(path, props) {
                Some(t) => prev.push((t, (path, lines.len() as usize, key, props))),
                None => prev,
            },
            None => prev,
        }
    }
}

pub open spec fn targeted_views(v: Seq<(String, FeatureMetadataComment)>) -> Seq<
    (Seq<char>, (Seq<char>, usize, Seq<char>, Seq<(Seq<char>, Seq<char>)>)),
> {
    v.map_values(|e: (String, FeatureMetadataComment)| (e.0@, comment_view(e.1)))
}

/// The metadata comments of one file, each paired with the feature path it
/// belongs to.
pub fn scan_file_for_metadata(relative_path: &str, lines: &Vec<String>) -> (r: Vec<
    (String, FeatureMetadataComment),
>)
    ensures
        targeted_views(r@) == file_metadata_spec(relative_path@, views(lines@)),
{
    let mut out: Vec<(String, FeatureMetadataComment)> = Vec::new();
    let ext = file_extension(relative_path);
    let patterns = get_comment_patterns(ext.as_str());
    let mut i: usize = 0;
    while i < lines.len()
        invariant
            i <= lines@.len(),
            patterns@ == comment_patterns_spec(extension_spec(relative_path@)),
            targeted_views(out@) == file_metadata_spec(relative_path@, views(lines@).take(i as int)),
        decreases lines@.len() - i,
    {
        let ghost before = targeted_views(out@);
        assert(views(lines@).take(i + 1).drop_last() =~= views(lines@).take(i as int));
        assert(views(lines@).take(i + 1).last() == lines@[i as int]@);
        match check_line_for_feature_metadata(lines[i].as_str(), patterns.as_slice()) {
            Some((key, props)) => {
                let target = match property_value(&props, "feature") {
                    Some(f) => Some(f),
                    None => infer_feature_path_from_file(relative_path),
                };
                match target {
                    Some(t) => {
                        let ghost tv = t@;
                        let ghost entry = (
                            relative_path@,
                            (i + 1) as usize,
                            key@,
                            property_entries(props),
                        );
                        out.push(
                            (
                                t,
                                FeatureMetadataComment {
                                    file_path: string_of(chars_of(relative_path).as_slice()),
                                    line_number: i + 1,
                                    metadata_key: key,
                                    properties: props,
                                },
                            ),
                        );
                        assert(targeted_views(out@) =~= before.push((tv, entry)));
                    },
                    None => {},
                }
            },
            None => {},
        }
        i = i + 1;
    }
    assert(views(lines@).take(lines@.len() as int) =~= views(lines@));
    out
}

/// A comment's target names the feature at `feature_path` when it is that path
/// or the feature directory's name.
pub open spec fn targets_feature(target: Seq<char>, feature_path: Seq<char>) -> bool {
    target == feature_path || target == file_name_spec(feature_path)
}

/// The positions, in order, of the entries of `entries[..n]` that target the feature.
pub open spec fn selected_spec(targets: Seq<Seq<char>>, feature_path: Seq<char>, n: int) -> Seq<
    usize,
>
    decreases n,
{
    if n <= 0 {
        Seq::empty()
    } else {
        let prev = selected_spec(targets, feature_path, n - 1);
        if targets_feature(targets[n - 1], feature_path) {
            prev.push((n - 1) as usize)
        } else {
            prev
        }
    }
}

/// The positions of the metadata entries that belong to the feature at
/// `feature_path`, in the order they were found.
pub fn metadata_for_feature(entries: &Vec<(String, FeatureMetadataComment)>, feature_path: &str) -> (r:
    Vec<usize>)
    ensures
        r@ == selected_spec(
            entries@.map_values(|e: (String, FeatureMetadataComment)| e.0@),
            feature_path@,
            entries@.len() as int,
        ),
{
    let ghost targets = entries@.map_values(|e: (String, FeatureMetadataComment)| e.0@);
    let fp = chars_of(feature_path);
    let name = file_name_vec(&fp);
    let mut out: Vec<usize> = Vec::new();
    let mut i: usize = 0;
    while i < entries.len()
        invariant
            i <= entries@.len(),
            targets == entries@.map_values(|e: (String, FeatureMetadataComment)| e.0@),
            fp@ == feature_path@,
            name@ == file_name_spec(feature_path@),
            out@ == selected_spec(targets, feature_path@, i as int),
        decreases entries@.len() - i,
    {
        let t = chars_of(entries[i].0.as_str());
        assert(targets[i as int] == entries@[i as int].0@);
        if eq_vec(&t, &fp) || eq_vec(&t, &name) {
            out.push(i);
        }
        i = i + 1;
    }
    out
}

/// How many of `lines[..n]` mention a TODO, in any letter case.
pub open spec fn todo_count_spec(lines: Seq<Seq<char>>, n: int) -> nat
    decreases n,
{
    if n <= 0 {
        0
    } else {
        todo_count_spec(lines, n - 1) + if crate::text::contains_spec(
            crate::commits::lower_spec(lines[n - 1]),
            "todo"@,
        ) {
            1nat
        } else {
            0nat
        }
    }
}

pub proof fn lemma_todo_count_bound(lines: Seq<Seq<char>>, n: int)
    requires
        0 <= n,
    ensures
        todo_count_spec(lines, n) <= n,
    decreases n,
{
    if n > 0 {
        lemma_todo_count_bound(lines, n - 1);
    }
}

/// The number of lines of a file that mention a TODO (case-insensitively).
pub fn count_todo_lines(lines: &Vec<String>) -> (r: usize)
    ensures
        r == todo_count_spec(views(lines@), lines@.len() as int),
{
    let todo = chars_of("todo");
    let mut count: usize = 0;
    let mut i: usize = 0;
    while i < lines.len()
        invariant
            i <= lines@.len(),
            todo@ == "todo"@,
            count == todo_count_spec(views(lines@), i as int),
        decreases lines@.len() - i,
    {
        proof {
            lemma_todo_count_bound(views(lines@), i as int);
        }
        assert(views(lines@)[i as int] == lines@[i as int]@);
        let l = crate::commits::lower_vec(&chars_of(lines[i].as_str()));
        if crate::text::contains_vec(&l, &todo) {
            count = count + 1;
        }
        i = i + 1;
    }
    count
}

/// The metadata entries of one key for a feature, by position.
#[derive(Debug, Clone)]
pub struct MetadataGroup {
    pub key: String,
    pub entries: Vec<usize>,
}

/// The positions among `sel[..n]` whose entry has metadata key `key`, in order.
pub open spec fn with_key(keys: Seq<Seq<char>>, sel: Seq<usize>, key: Seq<char>, n: int) -> Seq<usize>
    decreases n,
{
    if n <= 0 {
        Seq::empty()
    } else {
        let prev = with_key(keys, sel, key, n - 1);
        if keys[sel[n - 1] as int] == key {
            prev.push(sel[n - 1])
        } else {
            prev
        }
    }
}

pub open spec fn entry_keys(entries: Seq<(String, FeatureMetadataComment)>) -> Seq<Seq<char>> {
    entries.map_values(|e: (String, FeatureMetadataComment)| e.1.metadata_key@)
}

pub open spec fn entry_targets(entries: Seq<(String, FeatureMetadataComment)>) -> Seq<Seq<char>> {
    entries.map_values(|e: (String, FeatureMetadataComment)| e.0@)
}

/// The metadata of the feature at `feature_path`, grouped by key: one group
/// per distinct key, each listing, in the order found, the positions of the
/// entries that target the feature with that key.
pub fn metadata_groups(entries: &Vec<(String, FeatureMetadataComment)>, feature_path: &str) -> (r:
    Vec<MetadataGroup>)
    ensures
        ({
            let sel = selected_spec(entry_targets(entries@), feature_path@, entries@.len() as int);
            let keys = Seq::new(sel.len(), |i: int| entry_keys(entries@)[sel[i] as int]);
            &&& forall|a: int, b: int| 0 <= a < b < r@.len() ==> r@[a].key@ != r@[b].key@
            &&& forall|a: int|
                0 <= a < r@.len() ==> r@[a].entries@ == with_key(
                    entry_keys(entries@),
                    sel,
                    #[trigger] r@[a].key@,
                    sel.len() as int,
                ) && keys.contains(r@[a].key@)
            &&& forall|x: Seq<char>|
                #[trigger] keys.contains(x) ==> exists|a: int| 0 <= a < r@.len() && r@[a].key@ == x
        }),
{
    let sel = metadata_for_feature(entries, feature_path);
    assert(entries@.map_values(|e: (String, FeatureMetadataComment)| e.0@) =~= entry_targets(
        entries@,
    ));
    let ghost keys = Seq::new(sel@.len(), |i: int| entry_keys(entries@)[sel@[i] as int]);
    proof {
        lemma_selected_bounds(entry_targets(entries@), feature_path@, entries@.len() as int);
    }
    let mut key_list: Vec<String> = Vec::new();
    let mut i: usize = 0;
    while i < sel.len()
        invariant
            i <= sel@.len(),
            forall|m: int| 0 <= m < sel@.len() ==> sel@[m] < entries@.len(),
            keys == Seq::new(sel@.len(), |i: int| entry_keys(entries@)[sel@[i] as int]),
            views(key_list@) == keys.take(i as int),
        decreases sel@.len() - i,
    {
        let ghost before = views(key_list@);
        key_list.push(entries[sel[i]].1.metadata_key.clone());
        assert(views(key_list@) =~= before.push(keys[i as int]));
        i = i + 1;
        assert(keys.take(i as int) =~= keys.take(i - 1).push(keys[i - 1]));
    }
    assert(keys.take(sel@.len() as int) =~= keys);
    let (names, _counts) = tally(&key_list);
    let mut groups: Vec<MetadataGroup> = Vec::new();
    let mut g: usize = 0;
    while g < names.len()
        invariant
            g <= names@.len(),
            forall|m: int| 0 <= m < sel@.len() ==> sel@[m] < entries@.len(),
            keys == Seq::new(sel@.len(), |i: int| entry_keys(entries@)[sel@[i] as int]),
            forall|a: int, b: int| 0 <= a < b < views(names@).len() ==> views(names@)[a] != views(
                names@,
            )[b],
            forall|a: int| 0 <= a < views(names@).len() ==> keys.contains(#[trigger] views(names@)[a]),
            forall|k: int| 0 <= k < keys.len() ==> views(names@).contains(#[trigger] keys[k]),
            groups@.len() == g,
            forall|a: int| 0 <= a < g ==> #[trigger] groups@[a].key@ == names@[a]@,
            forall|a: int|
                0 <= a < g ==> #[trigger] groups@[a].entries@ == with_key(
                    entry_keys(entries@),
                    sel@,
                    names@[a]@,
                    sel@.len() as int,
                ),
        decreases names@.len() - g,
    {
        let name = &names[g];
        let nv = chars_of(name.as_str());
        let mut idx: Vec<usize> = Vec::new();
        let mut j: usize = 0;
        while j < sel.len()
            invariant
                j <= sel@.len(),
                g < names@.len(),
                nv@ == names@[g as int]@,
                forall|m: int| 0 <= m < sel@.len() ==> sel@[m] < entries@.len(),
                idx@ == with_key(entry_keys(entries@), sel@, names@[g as int]@, j as int),
            decreases sel@.len() - j,
        {
            assert(entry_keys(entries@)[sel@[j as int] as int] == entries@[sel@[j as int] as int].1.metadata_key@);
            if eq_vec(&chars_of(entries[sel[j]].1.metadata_key.as_str()), &nv) {
                idx.push(sel[j]);
            }
            j = j + 1;
        }
        let ghost before = groups@;
        groups.push(MetadataGroup { key: name.clone(), entries: idx });
        assert forall|a: int| 0 <= a < g + 1 implies #[trigger] groups@[a].key@ == names@[a]@ by {
            if a < g {
                assert(groups@[a] == before[a]);
            }
        }
        assert forall|a: int| 0 <= a < g + 1 implies #[trigger] groups@[a].entries@ == with_key(
            entry_keys(entries@),
            sel@,
            names@[a]@,
            sel@.len() as int,
        ) by {
            if a < g {
                assert(groups@[a] == before[a]);
            }
        }
        g = g + 1;
    }
    assert forall|a: int, b: int| 0 <= a < b < groups@.len() implies groups@[a].key@
        != groups@[b].key@ by {
        assert(views(names@)[a] == names@[a]@);
        assert(views(names@)[b] == names@[b]@);
    }
    assert forall|a: int| 0 <= a < groups@.len() implies keys.contains(#[trigger] groups@[a].key@) by {
        assert(views(names@)[a] == names@[a]@);
    }
    assert forall|x: Seq<char>| #[trigger] keys.contains(x) implies exists|a: int|
        0 <= a < groups@.len() && groups@[a].key@ == x by {
        let k = choose|k: int| 0 <= k < keys.len() && keys[k] == x;
        assert(views(names@).contains(keys[k]));
        let a = choose|a: int| 0 <= a < views(names@).len() && views(names@)[a] == keys[k];
        assert(views(names@)[a] == names@[a]@);
        assert(groups@[a].key@ == names@[a]@);
    }
    groups
}

pub proof fn lemma_selected_bounds(targets: Seq<Seq<char>>, feature_path: Seq<char>, n: int)
    ensures
        forall|m: int|
            0 <= m < selected_spec(targets, feature_path, n).len() ==> (#[trigger] selected_spec(
                targets,
                feature_path,
                n,
            )[m]) < (if n < 0 {
                0
            } else {
                n
            }),
    decreases n,
{
    if n > 0 {
        lemma_selected_bounds(targets, feature_path, n - 1);
        let prev = selected_spec(targets, feature_path, n - 1);
        assert forall|m: int| 0 <= m < selected_spec(targets, feature_path, n).len() implies (
        #[trigger] selected_spec(targets, feature_path, n)[m]) < n by {
            if m < prev.len() {
                assert(selected_spec(targets, feature_path, n)[m] == prev[m]);
            }
        }
    }
}

/// One key of a feature's metadata once comment metadata is merged in: the
/// position of the value the manifest gives for it, if any, and the positions
/// of the comment entries appended under it.
#[derive(Debug, Clone)]
pub struct MetaSlot {
    pub key: String,
    pub existing: Option<usize>,
    pub entries: Vec<usize>,
}

pub type SlotView = (Seq<char>, Option<usize>, Seq<usize>);

pub open spec fn slot_view(m: MetaSlot) -> SlotView {
    (m.key@, m.existing, m.entries@)
}

pub open spec fn group_view(g: MetadataGroup) -> (Seq<char>, Seq<usize>) {
    (g.key@, g.entries@)
}

/// The comment entries of the first group from `i` on with key `key` (none
/// when no group has it).
pub open spec fn group_entries(gs: Seq<(Seq<char>, Seq<usize>)>, key: Seq<char>, i: int) -> Seq<usize>
    decreases gs.len() - i,
{
    if i < 0 || i >= gs.len() {
        Seq::empty()
    } else if gs[i].0 == key {
        gs[i].1
    } else {
        group_entries(gs, key, i + 1)
    }
}

/// The groups of `gs[..n]` whose key the manifest does not have, as new slots.
pub open spec fn new_slots(keys: Seq<Seq<char>>, gs: Seq<(Seq<char>, Seq<usize>)>, n: int) -> Seq<SlotView>
    decreases n,
{
    if n <= 0 {
        Seq::empty()
    } else {
        let prev = new_slots(keys, gs, n - 1);
        if keys.contains(gs[n - 1].0) {
            prev
        } else {
            prev.push((gs[n - 1].0, None, gs[n - 1].1))
        }
    }
}

/// Manifest keys first, in order, each with the comment entries of its key
/// appended; then the comment keys the manifest lacks, in group order.
pub open spec fn merged_meta_spec(keys: Seq<Seq<char>>, gs: Seq<(Seq<char>, Seq<usize>)>) -> Seq<SlotView> {
    Seq::new(keys.len(), |i: int| (keys[i], Some(i as usize), group_entries(gs, keys[i], 0)))
        + new_slots(keys, gs, gs.len() as int)
}

fn copy_indices(v: &Vec<usize>) -> (r: Vec<usize>)
    ensures
        r@ == v@,
{
    let mut r: Vec<usize> = Vec::new();
    let mut i: usize = 0;
    while i < v.len()
        invariant
            i <= v@.len(),
            r@ == v@.take(i as int),
        decreases v@.len() - i,
    {
        r.push(v[i]);
        i = i + 1;
        assert(r@ =~= v@.take(i as int));
    }
    assert(v@.take(v@.len() as int) =~= v@);
    r
}

/// Merges a feature's comment metadata, grouped by key, into the keys its
/// manifest declares: entries under a declared key are appended to it, other
/// keys are added after the declared ones.
pub fn merge_metadata(meta_keys: &Vec<String>, groups: &Vec<MetadataGroup>) -> (r: Vec<MetaSlot>)
    ensures
        r@.map_values(|m: MetaSlot| slot_view(m)) == merged_meta_spec(
            views(meta_keys@),
            groups@.map_values(|g: MetadataGroup| group_view(g)),
        ),
{
    let ghost keys = views(meta_keys@);
    let ghost gs = groups@.map_values(|g: MetadataGroup| group_view(g));
    let ghost first = Seq::new(keys.len(), |i: int| (keys[i], Some(i as usize), group_entries(gs, keys[i], 0)));
    let mut out: Vec<MetaSlot> = Vec::new();
    let mut i: usize = 0;
    while i < meta_keys.len()
        invariant
            i <= meta_keys@.len(),
            keys == views(meta_keys@),
            gs == groups@.map_values(|g: MetadataGroup| group_view(g)),
            first == Seq::new(keys.len(), |i: int| (keys[i], Some(i as usize), group_entries(gs, keys[i], 0))),
            out@.map_values(|m: MetaSlot| slot_view(m)) == first.take(i as int),
        decreases meta_keys@.len() - i,
    {
        let kv = chars_of(meta_keys[i].as_str());
        let mut j: usize = 0;
        let mut found: Option<usize> = None;
        while j < groups.len() && found.is_none()
            invariant
                j <= groups@.len(),
                i < meta_keys@.len(),
                kv@ == keys[i as int],
                keys == views(meta_keys@),
                gs == groups@.map_values(|g: MetadataGroup| group_view(g)),
                found is None ==> group_entries(gs, keys[i as int], 0) == group_entries(
                    gs,
                    keys[i as int],
                    j as int,
                ),
                found matches Some(g) ==> g < groups@.len() && group_entries(gs, keys[i as int], 0)
                    == groups@[g as int].entries@,
            decreases groups@.len() - j + if found is None {
                1int
            } else {
                0int
            },
        {
            assert(gs[j as int] == (groups@[j as int].key@, groups@[j as int].entries@));
            if eq_vec(&chars_of(groups[j].key.as_str()), &kv) {
                found = Some(j);
            } else {
                j = j + 1;
            }
        }
        let entries = match found {
            Some(g) => copy_indices(&groups[g].entries),
            None => {
                assert(group_entries(gs, keys[i as int], j as int) =~= Seq::<usize>::empty());
                Vec::new()
            },
        };
        assert(keys[i as int] == meta_keys@[i as int]@);
        let ghost before = out@.map_values(|m: MetaSlot| slot_view(m));
        out.push(MetaSlot { key: meta_keys[i].clone(), existing: Some(i), entries });
        assert(out@.map_values(|m: MetaSlot| slot_view(m)) =~= before.push(first[i as int]));
        assert(first.take(i + 1) =~= first.take(i as int).push(first[i as int]));
        i = i + 1;
    }
    assert(first.take(keys.len() as int) =~= first);
    let mut g: usize = 0;
    while g < groups.len()
        invariant
            g <= groups@.len(),
            keys == views(meta_keys@),
            gs == groups@.map_values(|g: MetadataGroup| group_view(g)),
            out@.map_values(|m: MetaSlot| slot_view(m)) == first + new_slots(keys, gs, g as int),
        decreases groups@.len() - g,
    {
        assert(gs[g as int] == (groups@[g as int].key@, groups@[g as int].entries@));
        if !crate::resolver::has_file(meta_keys, &chars_of(groups[g].key.as_str())) {
            let ghost before = out@.map_values(|m: MetaSlot| slot_view(m));
            out.push(
                MetaSlot {
                    key: groups[g].key.clone(),
                    existing: None,
                    entries: copy_indices(&groups[g].entries),
                },
            );
            assert(out@.map_values(|m: MetaSlot| slot_view(m)) =~= before.push(
                (gs[g as int].0, None, gs[g as int].1),
            ));
        }
        g = g + 1;
    }
    out
}

} // verus!
