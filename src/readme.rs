//! README text: YAML front matter framing, the first heading as title and the
//! text after it as description. The front matter itself is parsed elsewhere.
use crate::commits::views;
use crate::resolver::child;
use crate::text::{
    chars_of, eq_vec, find_vec, lemma_find_from_bounds, lemma_split_nonempty, slice, split_chars,
    split_spec, starts_with, starts_with_vec, string_of, suffix, trim, trim_spec, trim_start_char,
    trim_start_char_spec, vviews,
};
use vstd::prelude::*;

verus! {

/// A line without its trailing `\r`.
pub open spec fn strip_cr(l: Seq<char>) -> Seq<char> {
    if l.len() > 0 && l.last() == '\r' {
        l.drop_last()
    } else {
        l
    }
}

/// `str::lines`: the text split at `\n`, each line without a trailing `\r`,
/// and no empty line after a final `\n`.
pub open spec fn lines_spec(s: Seq<char>) -> Seq<Seq<char>> {
    let parts = split_spec(s, '\n');
    let kept = if parts.last().len() == 0 {
        parts.drop_last()
    } else {
        parts
    };
    Seq::new(kept.len(), |i: int| strip_cr(kept[i]))
}

fn strip_cr_vec(l: &Vec<char>) -> (r: Vec<char>)
    ensures
        r@ == strip_cr(l@),
{
    let n = l.len();
    if n > 0 && l[n - 1] == '\r' {
        let r = slice(l, 0, n - 1);
        assert(r@ =~= l@.drop_last());
        r
    } else {
        slice(l, 0, n)
    }
}

/// The lines of a text, as `str::lines` gives them.
pub fn text_lines(s: &str) -> (r: Vec<Vec<char>>)
    ensures
        vviews(r@) == lines_spec(s@),
{
    let parts = split_chars(&chars_of(s), '\n');
    proof {
        lemma_split_nonempty(s@, '\n');
    }
    let ghost pv = vviews(parts@);
    let n = parts.len();
    let keep = if parts[n - 1].len() == 0 {
        n - 1
    } else {
        n
    };
    let ghost kept = if pv.last().len() == 0 {
        pv.drop_last()
    } else {
        pv
    };
    assert(kept.len() == keep);
    let mut out: Vec<Vec<char>> = Vec::new();
    let mut i: usize = 0;
    while i < keep
        invariant
            i <= keep <= parts@.len(),
            kept.len() == keep,
            pv == vviews(parts@),
            forall|j: int| 0 <= j < keep ==> kept[j] == pv[j],
            vviews(out@) == Seq::new(i as nat, |j: int| strip_cr(kept[j])),
        decreases keep - i,
    {
        let ghost before = vviews(out@);
        assert(pv[i as int] == parts@[i as int]@);
        out.push(strip_cr_vec(&parts[i]));
        assert(vviews(out@) =~= before.push(strip_cr(kept[i as int])));
        i = i + 1;
        assert(vviews(out@) =~= Seq::new(i as nat, |j: int| strip_cr(kept[j])));
    }
    assert(vviews(out@) =~= lines_spec(s@));
    out
}

/// The title that a line gives when it is a heading: the trimmed line without
/// its leading `#`s, trimmed, if not empty.
pub open spec fn heading_title(l: Seq<char>) -> Option<Seq<char>> {
    let t = trim_spec(l);
    if t.len() > 0 && t[0] == '#' {
        let title = trim_spec(trim_start_char_spec(t, '#'));
        if title.len() > 0 {
            Some(title)
        } else {
            None
        }
    } else {
        None
    }
}

/// The first heading title among `lines[i..]`.
pub open spec fn first_title_from(lines: Seq<Seq<char>>, i: int) -> Option<Seq<char>>
    decreases lines.len() - i,
{
    if i < 0 || i >= lines.len() {
        None
    } else if heading_title(lines[i]) is Some {
        heading_title(lines[i])
    } else {
        first_title_from(lines, i + 1)
    }
}

/// The title of a markdown text: its first non-empty `#` heading.
pub open spec fn title_spec(content: Seq<char>) -> Option<Seq<char>> {
    first_title_from(lines_spec(content), 0)
}

/// The first title from line `i` on, found by scanning the line vector.
fn title_chars(lines: &Vec<Vec<char>>) -> (r: Option<Vec<char>>)
    ensures
        match r {
            Some(t) => first_title_from(vviews(lines@), 0) == Some(t@),
            None => first_title_from(vviews(lines@), 0) is None,
        },
{
    let mut i: usize = 0;
    while i < lines.len()
        invariant
            i <= lines@.len(),
            first_title_from(vviews(lines@), 0) == first_title_from(vviews(lines@), i as int),
        decreases lines@.len() - i,
    {
        let t = trim(&lines[i]);
        assert(vviews(lines@)[i as int] == lines@[i as int]@);
        if t.len() > 0 && t[0] == '#' {
            let title = trim(&trim_start_char(&t, '#'));
            if title.len() > 0 {
                return Some(title);
            }
        }
        i = i + 1;
    }
    None
}

/// The title of a markdown text: its first non-empty `#` heading.
pub fn extract_first_title(content: &str) -> (r: Option<String>)
    ensures
        match r {
            Some(t) => title_spec(content@) == Some(t@),
            None => title_spec(content@) is None,
        },
{
    match title_chars(&text_lines(content)) {
        Some(t) => Some(string_of(t.as_slice())),
        None => None,
    }
}

/// The index of the first line whose trimmed text starts with `#`.
pub open spec fn first_heading_from(lines: Seq<Seq<char>>, i: int) -> Option<int>
    decreases lines.len() - i,
{
    if i < 0 || i >= lines.len() {
        None
    } else if trim_spec(lines[i]).len() > 0 && trim_spec(lines[i])[0] == '#' {
        Some(i)
    } else {
        first_heading_from(lines, i + 1)
    }
}

/// The lines joined with `\n`.
pub open spec fn join_lines(ls: Seq<Seq<char>>) -> Seq<char>
    decreases ls.len(),
{
    if ls.len() == 0 {
        Seq::empty()
    } else if ls.len() == 1 {
        ls[0]
    } else {
        join_lines(ls.drop_last()) + seq!['\n'] + ls.last()
    }
}

/// The description of a markdown text: every line after its first heading,
/// joined and trimmed (empty when there is no heading).
pub open spec fn description_spec(content: Seq<char>) -> Seq<char> {
    let ls = lines_spec(content);
    match first_heading_from(ls, 0) {
        Some(h) => trim_spec(join_lines(ls.subrange(h + 1, ls.len() as int))),
        None => Seq::empty(),
    }
}

pub proof fn lemma_first_heading_bounds(lines: Seq<Seq<char>>, i: int)
    ensures
        match first_heading_from(lines, i) {
            Some(k) => i <= k < lines.len(),
            None => true,
        },
    decreases lines.len() - i,
{
    if 0 <= i < lines.len() && !(trim_spec(lines[i]).len() > 0 && trim_spec(lines[i])[0] == '#') {
        lemma_first_heading_bounds(lines, i + 1);
    }
}

fn is_heading(l: &Vec<char>) -> (r: bool)
    ensures
        r == (trim_spec(l@).len() > 0 && trim_spec(l@)[0] == '#'),
{
    let t = trim(l);
    t.len() > 0 && t[0] == '#'
}

/// The description of a markdown text: everything after its first heading.
pub fn read_readme_content(content: &str) -> (r: String)
    ensures
        r@ == description_spec(content@),
{
    let lines = text_lines(content);
    let n = lines.len();
    let mut h: usize = 0;
    while h < n && !is_heading(&lines[h])
        invariant
            h <= n == lines@.len(),
            first_heading_from(vviews(lines@), 0) == first_heading_from(vviews(lines@), h as int),
        decreases n - h,
    {
        assert(vviews(lines@)[h as int] == lines@[h as int]@);
        h = h + 1;
    }
    if h < n {
        assert(vviews(lines@)[h as int] == lines@[h as int]@);
    }
    if h >= n {
        return String::new();
    }
    let acc = join_lines_from(&lines, h + 1);
    string_of(trim(&acc).as_slice())
}

/// A README split at its front matter: the YAML text between an opening
/// `---` line and the next `---` line, and the markdown after it.
pub open spec fn front_matter_spec(content: Seq<char>) -> (Option<Seq<char>>, Seq<char>) {
    if starts_with(content, "---\n"@) {
        let stripped = content.subrange(4, content.len() as int);
        match crate::text::find_spec(stripped, "\n---\n"@) {
            Some(e) => (Some(stripped.take(e)), stripped.subrange(e + 5, stripped.len() as int)),
            None => (None, Seq::empty()),
        }
    } else {
        (None, content)
    }
}

/// Title, description and front matter of a README.
#[derive(Debug, Clone)]
pub struct ReadmeText {
    pub front_matter: Option<String>,
    pub title: Option<String>,
    pub description: String,
}

/// Splits a README into its front matter text, title and description. A
/// README that opens a front matter block without closing it has no title or
/// description.
pub fn parse_readme(content: &str) -> (r: ReadmeText)
    ensures
        match r.front_matter {
            Some(y) => front_matter_spec(content@).0 == Some(y@),
            None => front_matter_spec(content@).0 is None,
        },
        match r.title {
            Some(t) => title_spec(front_matter_spec(content@).1) == Some(t@),
            None => title_spec(front_matter_spec(content@).1) is None,
        },
        r.description@ == description_spec(front_matter_spec(content@).1),
{
    let c = chars_of(content);
    proof {
        reveal_strlit("---\n");
        reveal_strlit("\n---\n");
    }
    let (front, markdown): (Option<String>, Vec<char>) = if starts_with_vec(&c, &chars_of("---\n")) {
        let stripped = suffix(&c, 4);
        let sl = stripped.len();
        match find_vec(&stripped, &chars_of("\n---\n")) {
            Some(e) => {
                proof {
                    lemma_find_from_bounds(stripped@, "\n---\n"@, 0);
                }
                assert("\n---\n"@.len() == 5);
                assert(e + 5 <= sl);
                let y = slice(&stripped, 0, e);
                assert(y@ =~= stripped@.take(e as int));
                (Some(string_of(y.as_slice())), suffix(&stripped, e + 5))
            },
            None => (None, Vec::new()),
        }
    } else {
        (None, slice(&c, 0, c.len()))
    };
    assert(markdown@ =~= front_matter_spec(content@).1);
    let md = string_of(markdown.as_slice());
    ReadmeText {
        front_matter: front,
        title: extract_first_title(md.as_str()),
        description: read_readme_content(md.as_str()),
    }
}

/// The path of the directory's `FEATURES.toml` when its file names hold one.
pub fn find_features_toml(dir_path: &str, file_names: &Vec<String>) -> (r: Option<String>)
    ensures
        match r {
            Some(p) => views(file_names@).contains("FEATURES.toml"@) && p@ == child(
                dir_path@,
                "FEATURES.toml"@,
            ),
            None => !views(file_names@).contains("FEATURES.toml"@),
        },
{
    let name = chars_of("FEATURES.toml");
    let mut i: usize = 0;
    while i < file_names.len()
        invariant
            i <= file_names@.len(),
            name@ == "FEATURES.toml"@,
            forall|j: int| 0 <= j < i ==> file_names@[j]@ != "FEATURES.toml"@,
        decreases file_names@.len() - i,
    {
        if eq_vec(&chars_of(file_names[i].as_str()), &name) {
            assert(views(file_names@)[i as int] == "FEATURES.toml"@);
            let d = chars_of(dir_path);
            let full = if d.len() == 0 {
                slice(&name, 0, name.len())
            } else {
                let mut s = slice(&d, 0, d.len());
                s.push('/');
                let mut k: usize = 0;
                let ghost base = s@;
                while k < name.len()
                    invariant
                        k <= name@.len(),
                        s@ == base + name@.take(k as int),
                    decreases name@.len() - k,
                {
                    s.push(name[k]);
                    k = k + 1;
                    assert(s@ =~= base + name@.take(k as int));
                }
                assert(name@.take(name@.len() as int) =~= name@);
                s
            };
            assert(full@ =~= child(dir_path@, "FEATURES.toml"@));
            return Some(string_of(full.as_slice()));
        }
        i = i + 1;
    }
    assert forall|j: int| 0 <= j < views(file_names@).len() implies views(file_names@)[j]
        != "FEATURES.toml"@ by {
        assert(views(file_names@)[j] == file_names@[j]@);
    }
    None
}

/// A decision record is a markdown file other than the folder's README.
pub fn is_decision_record(file_name: &str) -> (r: bool)
    ensures
        r == (crate::text::ends_with(file_name@, ".md"@) && file_name@ != "README.md"@),
{
    let n = chars_of(file_name);
    crate::text::ends_with_vec(&n, &chars_of(".md")) && !eq_vec(&n, &chars_of("README.md"))
}

/// `lines[start..]` joined with `\n`.
pub fn join_lines_from(lines: &Vec<Vec<char>>, start: usize) -> (r: Vec<char>)
    requires
        start <= lines@.len(),
    ensures
        r@ == join_lines(vviews(lines@).subrange(start as int, lines@.len() as int)),
{
    let n = lines.len();
    let ghost rest = vviews(lines@).subrange(start as int, n as int);
    let mut acc: Vec<char> = Vec::new();
    let mut i: usize = start;
    assert(rest.take(0) =~= Seq::<Seq<char>>::empty());
    while i < n
        invariant
            start <= i <= n == lines@.len(),
            rest == vviews(lines@).subrange(start as int, n as int),
            acc@ == join_lines(rest.take(i - start)),
        decreases n - i,
    {
        assert(rest.take(i - start + 1) =~= rest.take(i - start).push(lines@[i as int]@));
        assert(rest.take(i - start + 1).drop_last() =~= rest.take(i - start));
        if i > start {
            acc.push('\n');
        }
        let mut k: usize = 0;
        let ghost base = acc@;
        while k < lines[i].len()
            invariant
                i < n == lines@.len(),
                k <= lines@[i as int]@.len(),
                acc@ == base + lines@[i as int]@.take(k as int),
            decreases lines@[i as int]@.len() - k,
        {
            acc.push(lines[i][k]);
            k = k + 1;
            assert(acc@ =~= base + lines@[i as int]@.take(k as int));
        }
        assert(lines@[i as int]@.take(k as int) =~= lines@[i as int]@);
        if i == start {
            assert(base =~= Seq::<char>::empty());
            assert(acc@ =~= join_lines(rest.take(1)));
        } else {
            assert(acc@ =~= join_lines(rest.take(i - start)) + seq!['\n'] + lines@[i as int]@);
        }
        i = i + 1;
    }
    assert(rest.take(n - start) =~= rest);
    acc
}

/// The title of a commit message: its first line (empty for an empty message).
pub open spec fn message_title(m: Seq<char>) -> Seq<char> {
    let ls = lines_spec(m);
    if ls.len() > 0 {
        ls[0]
    } else {
        Seq::empty()
    }
}

/// The description of a commit message: the lines after the first, joined
/// and trimmed.
pub open spec fn message_description(m: Seq<char>) -> Seq<char> {
    let ls = lines_spec(m);
    if ls.len() > 1 {
        trim_spec(join_lines(ls.subrange(1, ls.len() as int)))
    } else {
        Seq::empty()
    }
}

/// Splits a commit message into its title and its description.
pub fn split_commit_message(message: &str) -> (r: (String, String))
    ensures
        r.0@ == message_title(message@),
        r.1@ == message_description(message@),
{
    let lines = text_lines(message);
    let title = if lines.len() > 0 {
        assert(vviews(lines@)[0] == lines@[0]@);
        string_of(lines[0].as_slice())
    } else {
        String::new()
    };
    let description = if lines.len() > 1 {
        string_of(trim(&join_lines_from(&lines, 1)).as_slice())
    } else {
        String::new()
    };
    (title, description)
}

} // verus!
