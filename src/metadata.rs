//! Metadata comments: `--feature-<key> k: v, ...` annotations found in source
//! comments, with their ordered property lists.
use crate::text::{
    after, chars_of, ends_with, ends_with_vec, eq_vec, find_either, find_either_from, find_spec,
    find_vec, is_ws, is_ws_char, lemma_find_either_bounds, lemma_find_from_bounds, slice,
    split_chars, split_spec, starts_with, string_of, strip_prefix_vec, suffix, trim, trim_spec,
    trim_start, trim_start_spec, vviews,
};
use indexmap::IndexMap;
use vstd::prelude::*;

verus! {

#[verifier::external_type_specification]
#[verifier::external_body]
#[verifier::reject_recursive_types(K)]
#[verifier::reject_recursive_types(V)]
#[verifier::reject_recursive_types(S)]
pub struct ExIndexMap<K, V, S>(IndexMap<K, V, S>);

/// The entries of a property map, in insertion order.
pub uninterp spec fn property_entries(m: IndexMap<String, String>) -> Seq<(Seq<char>, Seq<char>)>;

/// The index of the entry whose key is `k`.
pub open spec fn key_index_from(e: Seq<(Seq<char>, Seq<char>)>, k: Seq<char>, i: int) -> Option<
    int,
>
    decreases e.len() - i,
{
    if i < 0 || i >= e.len() {
        None
    } else if e[i].0 == k {
        Some(i)
    } else {
        key_index_from(e, k, i + 1)
    }
}

/// Inserting into an ordered map: an existing key keeps its place and takes the
/// new value; a new key goes last.
pub open spec fn insert_spec(e: Seq<(Seq<char>, Seq<char>)>, k: Seq<char>, v: Seq<char>) -> Seq<
    (Seq<char>, Seq<char>),
> {
    match key_index_from(e, k, 0) {
        Some(i) => e.update(i, (k, v)),
        None => e.push((k, v)),
    }
}

/// The value stored under `k`.
pub open spec fn lookup_spec(e: Seq<(Seq<char>, Seq<char>)>, k: Seq<char>) -> Option<Seq<char>> {
    match key_index_from(e, k, 0) {
        Some(i) => Some(e[i].1),
        None => None,
    }
}

pub proof fn lemma_key_index_bounds(e: Seq<(Seq<char>, Seq<char>)>, k: Seq<char>, i: int)
    ensures
        match key_index_from(e, k, i) {
            Some(j) => i <= j < e.len() && e[j].0 == k,
            None => true,
        },
    decreases e.len() - i,
{
    if i >= 0 && i < e.len() && e[i].0 != k {
        lemma_key_index_bounds(e, k, i + 1);
    }
}

/// Relies on `IndexMap::new`: a map with no entries.
#[verifier::external_body]
fn new_properties() -> (r: IndexMap<String, String>)
    ensures
        property_entries(r) == Seq::<(Seq<char>, Seq<char>)>::empty(),
{
    IndexMap::new()
}

/// Relies on `IndexMap::insert`: an equal key keeps its place and takes the new
/// value; otherwise the pair is added last.
#[verifier::external_body]
fn insert_property(m: &mut IndexMap<String, String>, k: String, v: String)
    ensures
        property_entries(*final(m)) == insert_spec(property_entries(*old(m)), k@, v@),
{
    m.insert(k, v);
}

/// Relies on `IndexMap::len`: the number of entries.
#[verifier::external_body]
fn property_count(m: &IndexMap<String, String>) -> (r: usize)
    ensures
        r == property_entries(*m).len(),
{
    m.len()
}

/// Relies on `IndexMap::get_index`: the entry at position `i`, copied.
#[verifier::external_body]
fn property_at(m: &IndexMap<String, String>, i: usize) -> (r: (String, String))
    requires
        i < property_entries(*m).len(),
    ensures
        (r.0@, r.1@) == property_entries(*m)[i as int],
{
    let (k, v) = m.get_index(i).unwrap();
    (k.clone(), v.clone())
}

/// The number of entries of a property map.
pub fn property_count_of(m: &IndexMap<String, String>) -> (r: usize)
    ensures
        r == property_entries(*m).len(),
{
    property_count(m)
}

/// The entry at position `i` of a property map.
pub fn property_entry(m: &IndexMap<String, String>, i: usize) -> (r: (String, String))
    requires
        i < property_entries(*m).len(),
    ensures
        (r.0@, r.1@) == property_entries(*m)[i as int],
{
    property_at(m, i)
}

/// A comment syntax: a line prefix, or a block opener and closer.
#[derive(Debug, Clone, Copy)]
pub enum CommentPattern {
    LineComment(&'static str),
    BlockComment(&'static str, &'static str),
}

/// The comment syntaxes tried for a file extension.
pub open spec fn comment_patterns_spec(ext: Seq<char>) -> Seq<CommentPattern> {
    if ext == "rs"@ || ext == "c"@ || ext == "cpp"@ || ext == "cc"@ || ext == "cxx"@ || ext
        == "h"@ || ext == "hpp"@ || ext == "java"@ || ext == "js"@ || ext == "jsx"@ || ext
        == "ts"@ || ext == "tsx"@ || ext == "go"@ || ext == "cs"@ || ext == "swift"@ || ext
        == "kt"@ || ext == "scala"@ || ext == "css"@ || ext == "scss"@ || ext == "less"@ {
        seq![CommentPattern::LineComment("//"), CommentPattern::BlockComment("/*", "*/")]
    } else if ext == "py"@ || ext == "sh"@ || ext == "bash"@ || ext == "rb"@ || ext == "pl"@ || ext
        == "yml"@ || ext == "yaml"@ || ext == "toml"@ {
        seq![CommentPattern::LineComment("#")]
    } else if ext == "html"@ || ext == "xml"@ || ext == "svg"@ {
        seq![CommentPattern::BlockComment("<!--", "-->")]
    } else if ext == "lua"@ {
        seq![CommentPattern::LineComment("--"), CommentPattern::BlockComment("--[[", "]]")]
    } else if ext == "sql"@ {
        seq![CommentPattern::LineComment("--"), CommentPattern::BlockComment("/*", "*/")]
    } else {
        seq![
            CommentPattern::LineComment("//"),
            CommentPattern::LineComment("#"),
            CommentPattern::BlockComment("/*", "*/"),
        ]
    }
}

fn is(e: &Vec<char>, lit: &str) -> (r: bool)
    ensures
        r == (e@ == lit@),
{
    eq_vec(e, &chars_of(lit))
}

/// The comment syntaxes of a file extension; unknown extensions get `//`, `#` and `/* */`.
pub fn get_comment_patterns(extension: &str) -> (r: Vec<CommentPattern>)
    ensures
        r@ == comment_patterns_spec(extension@),
{
    let e = chars_of(extension);
    let mut r: Vec<CommentPattern> = Vec::new();
    if is(&e, "rs") || is(&e, "c") || is(&e, "cpp") || is(&e, "cc") || is(&e, "cxx") || is(&e, "h")
        || is(&e, "hpp") || is(&e, "java") || is(&e, "js") || is(&e, "jsx") || is(&e, "ts") || is(
        &e,
        "tsx",
    ) || is(&e, "go") || is(&e, "cs") || is(&e, "swift") || is(&e, "kt") || is(&e, "scala") || is(
        &e,
        "css",
    ) || is(&e, "scss") || is(&e, "less") {
        r.push(CommentPattern::LineComment("//"));
        r.push(CommentPattern::BlockComment("/*", "*/"));
    } else if is(&e, "py") || is(&e, "sh") || is(&e, "bash") || is(&e, "rb") || is(&e, "pl") || is(
        &e,
        "yml",
    ) || is(&e, "yaml") || is(&e, "toml") {
        r.push(CommentPattern::LineComment("#"));
    } else if is(&e, "html") || is(&e, "xml") || is(&e, "svg") {
        r.push(CommentPattern::BlockComment("<!--", "-->"));
    } else if is(&e, "lua") {
        r.push(CommentPattern::LineComment("--"));
        r.push(CommentPattern::BlockComment("--[[", "]]"));
    } else if is(&e, "sql") {
        r.push(CommentPattern::LineComment("--"));
        r.push(CommentPattern::BlockComment("/*", "*/"));
    } else {
        r.push(CommentPattern::LineComment("//"));
        r.push(CommentPattern::LineComment("#"));
        r.push(CommentPattern::BlockComment("/*", "*/"));
    }
    assert(r@ =~= comment_patterns_spec(extension@));
    r
}

/// The text of the comment that the trimmed line `t` opens with the first
/// matching pattern from index `k` on.
pub open spec fn comment_from(t: Seq<char>, patterns: Seq<CommentPattern>, k: int) -> Option<
    Seq<char>,
>
    decreases patterns.len() - k,
{
    if k < 0 || k >= patterns.len() {
        None
    } else {
        match patterns[k] {
            CommentPattern::LineComment(p) => if starts_with(t, p@) {
                Some(trim_spec(after(t, p@)))
            } else {
                comment_from(t, patterns, k + 1)
            },
            CommentPattern::BlockComment(s, e) => if starts_with(t, s@) {
                let c = after(t, s@);
                Some(
                    trim_spec(
                        if ends_with(c, e@) {
                            c.take(c.len() - e@.len())
                        } else {
                            c
                        },
                    ),
                )
            } else {
                comment_from(t, patterns, k + 1)
            },
        }
    }
}

/// The comment text of a line under the first pattern whose opener starts it.
pub open spec fn comment_content_spec(line: Seq<char>, patterns: Seq<CommentPattern>) -> Option<
    Seq<char>,
> {
    comment_from(trim_spec(line), patterns, 0)
}

fn comment_chars(line: &Vec<char>, patterns: &[CommentPattern]) -> (r: Option<Vec<char>>)
    ensures
        match r {
            Some(v) => comment_content_spec(line@, patterns@) == Some(v@),
            None => comment_content_spec(line@, patterns@) is None,
        },
{
    let t = trim(line);
    let mut k: usize = 0;
    while k < patterns.len()
        invariant
            k <= patterns@.len(),
            t@ == trim_spec(line@),
            comment_from(t@, patterns@, 0) == comment_from(t@, patterns@, k as int),
        decreases patterns@.len() - k,
    {
        match patterns[k] {
            CommentPattern::LineComment(p) => {
                match strip_prefix_vec(&t, &chars_of(p)) {
                    Some(rest) => {
                        return Some(trim(&rest));
                    },
                    None => {},
                }
            },
            CommentPattern::BlockComment(s, e) => {
                match strip_prefix_vec(&t, &chars_of(s)) {
                    Some(rest) => {
                        let ev = chars_of(e);
                        let n = rest.len();
                        if ends_with_vec(&rest, &ev) {
                            let c = slice(&rest, 0, n - ev.len());
                            assert(c@ =~= rest@.take(rest@.len() - ev@.len()));
                            return Some(trim(&c));
                        }
                        return Some(trim(&rest));
                    },
                    None => {},
                }
            },
        }
        k = k + 1;
    }
    None
}

/// The text of a comment line, stripped of its comment markers and trimmed.
pub fn extract_comment_content(line: &str, patterns: &[CommentPattern]) -> (r: Option<String>)
    ensures
        match r {
            Some(s) => comment_content_spec(line@, patterns@) == Some(s@),
            None => comment_content_spec(line@, patterns@) is None,
        },
{
    match comment_chars(&chars_of(line), patterns) {
        Some(v) => Some(string_of(v.as_slice())),
        None => None,
    }
}

/// The entries of `key: value` pieces `parts`, each trimmed; a piece without
/// `:` or with an empty key adds nothing, a repeated key takes the later value.
pub open spec fn props_fold(parts: Seq<Seq<char>>) -> Seq<(Seq<char>, Seq<char>)>
    decreases parts.len(),
{
    if parts.len() == 0 {
        Seq::empty()
    } else {
        let prev = props_fold(parts.drop_last());
        let part = trim_spec(parts.last());
        match find_either_from(part, ':', ':', 0) {
            Some(c) => {
                let key = trim_spec(part.take(c));
                let value = trim_spec(part.subrange(c + 1, part.len() as int));
                if key.len() > 0 {
                    insert_spec(prev, key, value)
                } else {
                    prev
                }
            },
            None => prev,
        }
    }
}

/// The property list of a comma-separated `key: value` text.
pub open spec fn properties_spec(content: Seq<char>) -> Seq<(Seq<char>, Seq<char>)> {
    props_fold(split_spec(content, ','))
}

/// Parses `key: value, key2: value2, ...` keeping the order of first appearance.
pub fn parse_properties(content: &str) -> (r: IndexMap<String, String>)
    ensures
        property_entries(r) == properties_spec(content@),
{
    parse_properties_chars(&chars_of(content))
}

fn parse_properties_chars(content: &Vec<char>) -> (r: IndexMap<String, String>)
    ensures
        property_entries(r) == properties_spec(content@),
{
    let parts = split_chars(content, ',');
    let mut m = new_properties();
    let mut i: usize = 0;
    while i < parts.len()
        invariant
            i <= parts@.len(),
            vviews(parts@) == split_spec(content@, ','),
            property_entries(m) == props_fold(vviews(parts@).take(i as int)),
        decreases parts@.len() - i,
    {
        assert(vviews(parts@).take(i + 1).drop_last() =~= vviews(parts@).take(i as int));
        assert(vviews(parts@).take(i + 1).last() == parts@[i as int]@);
        let part = trim(&parts[i]);
        let n = part.len();
        match find_either(&part, ':', ':') {
            Some(c) => {
                proof {
                    lemma_find_either_bounds(part@, ':', ':', 0);
                }
                let key = trim(&slice(&part, 0, c));
                let value = trim(&slice(&part, c + 1, n));
                assert(part@.take(c as int) =~= part@.subrange(0, c as int));
                if key.len() > 0 {
                    insert_property(&mut m, string_of(key.as_slice()), string_of(value.as_slice()));
                }
            },
            None => {},
        }
        i = i + 1;
    }
    assert(vviews(parts@).take(parts@.len() as int) =~= vviews(parts@));
    m
}

/// The first index from `i` on holding whitespace or a comma.
pub open spec fn key_end_from(s: Seq<char>, i: int) -> int
    decreases s.len() - i,
{
    if i < 0 || i >= s.len() {
        s.len() as int
    } else if is_ws(s[i]) || s[i] == ',' {
        i
    } else {
        key_end_from(s, i + 1)
    }
}

pub proof fn lemma_key_end_bounds(s: Seq<char>, i: int)
    requires
        0 <= i <= s.len(),
    ensures
        i <= key_end_from(s, i) <= s.len(),
    decreases s.len() - i,
{
    if i < s.len() && !(is_ws(s[i]) || s[i] == ',') {
        lemma_key_end_bounds(s, i + 1);
    }
}

/// The metadata key and the text of its properties in a comment's text:
/// after `--feature-`, the key runs to whitespace or a comma.
pub open spec fn annotation_spec(content: Seq<char>) -> Option<(Seq<char>, Seq<char>)> {
    match find_spec(content, "--feature-"@) {
        Some(fs) => {
            let after_dashes = content.subrange(fs + 2, content.len() as int);
            let key_end = key_end_from(after_dashes, 0);
            let full_key = after_dashes.take(key_end);
            let key = if starts_with(full_key, "feature-"@) {
                after(full_key, "feature-"@)
            } else {
                full_key
            };
            let start = fs + 2 + key_end;
            let props = if start < content.len() {
                trim_start_spec(content.subrange(start, content.len() as int))
            } else {
                Seq::empty()
            };
            Some((key, props))
        },
        None => None,
    }
}

/// The metadata annotation of a source line: its key and its non-empty property
/// list, if the line is a comment holding `--feature-<key>` with properties.
pub open spec fn line_metadata_spec(line: Seq<char>, patterns: Seq<CommentPattern>) -> Option<
    (Seq<char>, Seq<(Seq<char>, Seq<char>)>),
> {
    match comment_content_spec(line, patterns) {
        Some(c) => match annotation_spec(c) {
            Some((key, props)) => if properties_spec(props).len() > 0 {
                Some((key, properties_spec(props)))
            } else {
                None
            },
            None => None,
        },
        None => None,
    }
}

fn annotation_chars(content: &Vec<char>) -> (r: Option<(Vec<char>, Vec<char>)>)
    ensures
        match r {
            Some((k, p)) => annotation_spec(content@) == Some((k@, p@)),
            None => annotation_spec(content@) is None,
        },
{
    let n = content.len();
    match find_vec(content, &chars_of("--feature-")) {
        Some(fs) => {
            proof {
                lemma_find_from_bounds(content@, "--feature-"@, 0);
                reveal_strlit("--feature-");
            }
            assert(fs + 10 <= n);
            let after_dashes = suffix(content, fs + 2);
            let m = after_dashes.len();
            let mut e: usize = 0;
            while e < m && !(is_ws_char(after_dashes[e]) || after_dashes[e] == ',')
                invariant
                    e <= m == after_dashes@.len(),
                    key_end_from(after_dashes@, 0) == key_end_from(after_dashes@, e as int),
                decreases m - e,
            {
                e = e + 1;
            }
            let full_key = slice(&after_dashes, 0, e);
            assert(full_key@ =~= after_dashes@.take(e as int));
            let key = match strip_prefix_vec(&full_key, &chars_of("feature-")) {
                Some(k) => k,
                None => full_key,
            };
            let start = fs + 2 + e;
            let props = if start < n {
                trim_start(&suffix(content, start))
            } else {
                Vec::new()
            };
            assert(props@ =~= (if start < n {
                trim_start_spec(content@.subrange(start as int, n as int))
            } else {
                Seq::empty()
            }));
            Some((key, props))
        },
        None => None,
    }
}

/// The metadata key (`flag` for `--feature-flag`) and properties of a comment line.
pub fn check_line_for_feature_metadata(line: &str, patterns: &[CommentPattern]) -> (r: Option<
    (String, IndexMap<String, String>),
>)
    ensures
        match r {
            Some((k, m)) => line_metadata_spec(line@, patterns@) == Some(
                (k@, property_entries(m)),
            ),
            None => line_metadata_spec(line@, patterns@) is None,
        },
{
    let content = match comment_chars(&chars_of(line), patterns) {
        Some(c) => c,
        None => return None,
    };
    match annotation_chars(&content) {
        Some((key, props_text)) => {
            let props = parse_properties_chars(&props_text);
            if property_count(&props) > 0 {
                Some((string_of(key.as_slice()), props))
            } else {
                None
            }
        },
        None => None,
    }
}

/// One metadata annotation found in a source file.
#[derive(Debug)]
pub struct FeatureMetadataComment {
    pub file_path: String,
    pub line_number: usize,
    pub metadata_key: String,
    pub properties: IndexMap<String, String>,
}

} // verus!
