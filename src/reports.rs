//! Coverage reports: LCOV tracefiles and Cobertura XML, read line by line
//! into per-file line and branch counts.
use crate::readme::{lines_spec, text_lines};
use crate::text::{
    after, chars_of, contains_spec, contains_vec, eq_vec, find_either, find_either_from, find_spec,
    find_vec, lemma_find_either_bounds, lemma_find_from_bounds, slice, split_chars, split_spec,
    starts_with, starts_with_vec, string_of, suffix, trim, trim_spec, vviews,
};
use crate::tree::sat;
use vstd::prelude::*;

verus! {

/// The counts that a report gives for one file.
#[derive(Debug, Clone)]
pub struct FileCoverage {
    pub path: String,
    pub lines_total: usize,
    pub lines_covered: usize,
    pub branches_total: usize,
    pub branches_covered: usize,
}

pub type FcView = (Seq<char>, usize, usize, usize, usize);

pub open spec fn fc_view(f: FileCoverage) -> FcView {
    (f.path@, f.lines_total, f.lines_covered, f.branches_total, f.branches_covered)
}

pub open spec fn fc_views(v: Seq<FileCoverage>) -> Seq<FcView> {
    v.map_values(|f: FileCoverage| fc_view(f))
}

pub open spec fn is_digit(c: char) -> bool {
    '0' <= c && c <= '9'
}

pub open spec fn digits_value(s: Seq<char>) -> nat
    decreases s.len(),
{
    if s.len() == 0 {
        0
    } else {
        digits_value(s.drop_last()) * 10 + ((s.last() as u32) - ('0' as u32)) as nat
    }
}

pub open spec fn all_digits(d: Seq<char>) -> bool {
    forall|i: int| 0 <= i < d.len() ==> is_digit(#[trigger] d[i])
}

/// `str::parse::<usize>`: an optional `+` and at least one decimal digit,
/// with a value that fits.
pub open spec fn parse_usize_spec(s: Seq<char>) -> Option<usize> {
    let d = if s.len() > 0 && s[0] == '+' {
        s.drop_first()
    } else {
        s
    };
    if d.len() > 0 && all_digits(d) && digits_value(d) <= usize::MAX {
        Some(digits_value(d) as usize)
    } else {
        None
    }
}

proof fn lemma_digits_monotone(s: Seq<char>, i: int)
    requires
        0 <= i <= s.len(),
        forall|k: int| 0 <= k < s.len() ==> is_digit(#[trigger] s[k]),
    ensures
        digits_value(s.take(i)) <= digits_value(s),
    decreases s.len() - i,
{
    if i < s.len() {
        lemma_digits_monotone(s, i + 1);
        assert(s.take(i + 1).drop_last() =~= s.take(i));
    } else {
        assert(s.take(i) =~= s);
    }
}

/// Reads a decimal number as `str::parse::<usize>` does.
pub fn parse_usize(s: &Vec<char>) -> (r: Option<usize>)
    ensures
        r == parse_usize_spec(s@),
{
    let start: usize = if s.len() > 0 && s[0] == '+' {
        1
    } else {
        0
    };
    let ghost d = if s@.len() > 0 && s@[0] == '+' {
        s@.drop_first()
    } else {
        s@
    };
    assert(d =~= s@.subrange(start as int, s@.len() as int));
    assert(parse_usize_spec(s@) == if d.len() > 0 && all_digits(d) && digits_value(d)
        <= usize::MAX {
        Some(digits_value(d) as usize)
    } else {
        None
    });
    if start >= s.len() {
        return None;
    }
    let mut v: usize = 0;
    let mut i: usize = start;
    while i < s.len()
        invariant
            start <= i <= s@.len(),
            d == s@.subrange(start as int, s@.len() as int),
            parse_usize_spec(s@) == if d.len() > 0 && all_digits(d) && digits_value(d)
                <= usize::MAX {
                Some(digits_value(d) as usize)
            } else {
                None
            },
            forall|k: int| 0 <= k < i - start ==> is_digit(#[trigger] d[k]),
            v == digits_value(d.take(i - start)),
        decreases s@.len() - i,
    {
        let c = s[i];
        if !('0' <= c && c <= '9') {
            assert(!is_digit(d[i - start]));
            assert(!all_digits(d));
            return None;
        }
        let digit = (c as u32 - '0' as u32) as usize;
        assert(d.take(i - start + 1).drop_last() =~= d.take(i - start));
        assert(d.take(i - start + 1).last() == c);
        if v > (usize::MAX - digit) / 10 {
            proof {
                assert(digits_value(d.take(i - start + 1)) == v * 10 + digit);
                assert(v * 10 + digit > usize::MAX) by (nonlinear_arith)
                    requires
                        v > (usize::MAX - digit) / 10,
                        digit <= 9,
                ;
                if all_digits(d) {
                    lemma_digits_monotone(d, i - start + 1);
                    assert(digits_value(d) > usize::MAX);
                }
                assert(parse_usize_spec(s@) is None);
            }
            return None;
        }
        v = v * 10 + digit;
        i = i + 1;
    }
    assert(d.take(d.len() as int) =~= d);
    assert(all_digits(d));
    Some(v)
}

/// The parse state of a report: the file being read, its counts so far, and
/// the records finished.
pub struct ReportState {
    pub file: Option<Seq<char>>,
    pub lt: usize,
    pub lc: usize,
    pub bt: usize,
    pub bc: usize,
    pub out: Seq<FcView>,
}

pub open spec fn inc(n: usize) -> usize {
    sat(n as nat + 1) as usize
}

pub open spec fn sum_sat(a: usize, b: usize) -> usize {
    sat(a as nat + b as nat) as usize
}

/// The state after an LCOV `SF:` line naming `f`: the file being read, if any,
/// is recorded and the counts start over.
pub open spec fn lcov_start_file(st: ReportState, f: Seq<char>) -> ReportState {
    match st.file {
        Some(cur) => ReportState {
            file: Some(f),
            lt: 0,
            lc: 0,
            bt: 0,
            bc: 0,
            out: st.out.push((cur, st.lt, st.lc, st.bt, st.bc)),
        },
        None => ReportState { file: Some(f), ..st },
    }
}

/// One LCOV line: `SF:` opens a file, `DA:` counts a line (covered when its
/// hit count is positive), `BRDA:` a branch (taken unless `-` or `0`), `LF:`,
/// `LH:`, `BRF:` and `BRH:` set the totals, `end_of_record` closes the file.
pub open spec fn lcov_step(st: ReportState, line: Seq<char>) -> ReportState {
    let t = trim_spec(line);
    let comma = find_either_from(t, ',', ',', 0);
    if starts_with(t, "SF:"@) {
        lcov_start_file(st, after(t, "SF:"@))
    } else if starts_with(t, "DA:"@) && comma is Some && parse_usize_spec(
        t.subrange(comma->0 + 1, t.len() as int),
    ) is Some {
        let hits = parse_usize_spec(t.subrange(comma->0 + 1, t.len() as int))->0;
        ReportState {
            lt: inc(st.lt),
            lc: if hits > 0 {
                inc(st.lc)
            } else {
                st.lc
            },
            ..st
        }
    } else if starts_with(t, "BRDA:"@) {
        let parts = split_spec(after(t, "BRDA:"@), ',');
        let taken = parts.len() >= 4 && parts[3] != "-"@ && parts[3] != "0"@;
        ReportState {
            bt: inc(st.bt),
            bc: if taken {
                inc(st.bc)
            } else {
                st.bc
            },
            ..st
        }
    } else if starts_with(t, "LF:"@) && parse_usize_spec(after(t, "LF:"@)) is Some {
        ReportState { lt: parse_usize_spec(after(t, "LF:"@))->0, ..st }
    } else if starts_with(t, "LH:"@) && parse_usize_spec(after(t, "LH:"@)) is Some {
        ReportState { lc: parse_usize_spec(after(t, "LH:"@))->0, ..st }
    } else if starts_with(t, "BRF:"@) && parse_usize_spec(after(t, "BRF:"@)) is Some {
        ReportState { bt: parse_usize_spec(after(t, "BRF:"@))->0, ..st }
    } else if starts_with(t, "BRH:"@) && parse_usize_spec(after(t, "BRH:"@)) is Some {
        ReportState { bc: parse_usize_spec(after(t, "BRH:"@))->0, ..st }
    } else if t == "end_of_record"@ {
        match st.file {
            Some(cur) => ReportState {
                file: None,
                lt: 0,
                lc: 0,
                bt: 0,
                bc: 0,
                out: st.out.push((cur, st.lt, st.lc, st.bt, st.bc)),
            },
            None => st,
        }
    } else {
        st
    }
}

pub open spec fn initial_state() -> ReportState {
    ReportState { file: None, lt: 0, lc: 0, bt: 0, bc: 0, out: Seq::empty() }
}

pub open spec fn lcov_fold(lines: Seq<Seq<char>>) -> ReportState
    decreases lines.len(),
{
    if lines.len() == 0 {
        initial_state()
    } else {
        lcov_step(lcov_fold(lines.drop_last()), lines.last())
    }
}

/// The records that remain when the input ends: the open file's, if any.
pub open spec fn finish(st: ReportState) -> Seq<FcView> {
    match st.file {
        Some(cur) => st.out.push((cur, st.lt, st.lc, st.bt, st.bc)),
        None => st.out,
    }
}

/// The per-file records of an LCOV tracefile.
pub open spec fn lcov_spec(content: Seq<char>) -> Seq<FcView> {
    finish(lcov_fold(lines_spec(content)))
}

/// The exec counterpart of `ReportState`.
struct Parse {
    file: Option<Vec<char>>,
    lt: usize,
    lc: usize,
    bt: usize,
    bc: usize,
    out: Vec<FileCoverage>,
}

spec fn parse_view(p: Parse) -> ReportState {
    ReportState {
        file: match p.file {
            Some(f) => Some(f@),
            None => None,
        },
        lt: p.lt,
        lc: p.lc,
        bt: p.bt,
        bc: p.bc,
        out: fc_views(p.out@),
    }
}

fn inc_exec(n: usize) -> (r: usize)
    ensures
        r == inc(n),
{
    if n == usize::MAX {
        n
    } else {
        n + 1
    }
}

fn add_exec(a: usize, b: usize) -> (r: usize)
    ensures
        r == sum_sat(a, b),
{
    if a > usize::MAX - b {
        usize::MAX
    } else {
        a + b
    }
}

/// Records the open file, if any, and clears the counts.
fn close_file(p: &mut Parse)
    ensures
        parse_view(*final(p)) == (match parse_view(*old(p)).file {
            Some(cur) => ReportState {
                file: None,
                lt: 0,
                lc: 0,
                bt: 0,
                bc: 0,
                out: parse_view(*old(p)).out.push(
                    (
                        cur,
                        parse_view(*old(p)).lt,
                        parse_view(*old(p)).lc,
                        parse_view(*old(p)).bt,
                        parse_view(*old(p)).bc,
                    ),
                ),
            },
            None => parse_view(*old(p)),
        }),
{
    let ghost before = parse_view(*p);
    match p.file.take() {
        Some(f) => {
            let rec = FileCoverage {
                path: string_of(f.as_slice()),
                lines_total: p.lt,
                lines_covered: p.lc,
                branches_total: p.bt,
                branches_covered: p.bc,
            };
            p.out.push(rec);
            p.lt = 0;
            p.lc = 0;
            p.bt = 0;
            p.bc = 0;
            assert(fc_views(p.out@) =~= before.out.push((f@, before.lt, before.lc, before.bt, before.bc)));
        },
        None => {},
    }
}

fn number_after(t: &Vec<char>, lit: &str) -> (r: Option<usize>)
    ensures
        r == (if starts_with(t@, lit@) {
            parse_usize_spec(after(t@, lit@))
        } else {
            None
        }),
{
    if starts_with_vec(t, &chars_of(lit)) {
        let n = chars_of(lit).len();
        parse_usize(&suffix(t, n))
    } else {
        None
    }
}

fn lcov_line(p: &mut Parse, line: &Vec<char>)
    ensures
        parse_view(*final(p)) == lcov_step(parse_view(*old(p)), line@),
{
    let t = trim(line);
    proof {
        reveal_strlit("SF:");
        reveal_strlit("DA:");
        reveal_strlit("BRDA:");
        lemma_find_either_bounds(t@, ',', ',', 0);
    }
    let comma = find_either(&t, ',', ',');
    if starts_with_vec(&t, &chars_of("SF:")) {
        let f = suffix(&t, 3);
        close_file(p);
        p.file = Some(f);
        return;
    }
    if starts_with_vec(&t, &chars_of("DA:")) && comma.is_some() {
        let c = comma.unwrap();
        let n = t.len();
        match parse_usize(&suffix(&t, c + 1)) {
            Some(hits) => {
                p.lt = inc_exec(p.lt);
                if hits > 0 {
                    p.lc = inc_exec(p.lc);
                }
                return;
            },
            None => {},
        }
    }
    if starts_with_vec(&t, &chars_of("BRDA:")) {
        let parts = split_chars(&suffix(&t, 5), ',');
        p.bt = inc_exec(p.bt);
        if parts.len() >= 4 && !eq_vec(&parts[3], &chars_of("-")) && !eq_vec(
            &parts[3],
            &chars_of("0"),
        ) {
            p.bc = inc_exec(p.bc);
        }
        return;
    }
    match number_after(&t, "LF:") {
        Some(n) => {
            p.lt = n;
            return;
        },
        None => {},
    }
    match number_after(&t, "LH:") {
        Some(n) => {
            p.lc = n;
            return;
        },
        None => {},
    }
    match number_after(&t, "BRF:") {
        Some(n) => {
            p.bt = n;
            return;
        },
        None => {},
    }
    match number_after(&t, "BRH:") {
        Some(n) => {
            p.bc = n;
            return;
        },
        None => {},
    }
    if eq_vec(&t, &chars_of("end_of_record")) {
        close_file(p);
    }
}

/// The per-file line and branch counts of an LCOV tracefile.
pub fn parse_lcov(content: &str) -> (r: Vec<FileCoverage>)
    ensures
        fc_views(r@) == lcov_spec(content@),
{
    let lines = text_lines(content);
    let mut p = Parse { file: None, lt: 0, lc: 0, bt: 0, bc: 0, out: Vec::new() };
    assert(fc_views(p.out@) =~= Seq::<FcView>::empty());
    assert(parse_view(p) == initial_state());
    let mut i: usize = 0;
    while i < lines.len()
        invariant
            i <= lines@.len(),
            vviews(lines@) == lines_spec(content@),
            parse_view(p) == lcov_fold(vviews(lines@).take(i as int)),
        decreases lines@.len() - i,
    {
        assert(vviews(lines@).take(i + 1).drop_last() =~= vviews(lines@).take(i as int));
        assert(vviews(lines@).take(i + 1).last() == lines@[i as int]@);
        lcov_line(&mut p, &lines[i]);
        i = i + 1;
    }
    assert(vviews(lines@).take(lines@.len() as int) =~= vviews(lines@));
    close_file(&mut p);
    p.out
}

/// The value of the XML attribute `name="..."` in a line.
pub open spec fn attribute_spec(line: Seq<char>, name: Seq<char>) -> Option<Seq<char>> {
    let pat = name + "=\""@;
    match find_spec(line, pat) {
        Some(st) => {
            let vs = st + pat.len();
            match find_either_from(line.subrange(vs, line.len() as int), '"', '"', 0) {
                Some(e) => Some(line.subrange(vs, vs + e)),
                None => None,
            }
        },
        None => None,
    }
}

fn concat_chars(a: &Vec<char>, b: &Vec<char>) -> (r: Vec<char>)
    ensures
        r@ == a@ + b@,
{
    let mut r = slice(a, 0, a.len());
    let mut i: usize = 0;
    while i < b.len()
        invariant
            i <= b@.len(),
            r@ == a@ + b@.take(i as int),
        decreases b@.len() - i,
    {
        r.push(b[i]);
        i = i + 1;
        assert(r@ =~= a@ + b@.take(i as int));
    }
    assert(b@.take(b@.len() as int) =~= b@);
    r
}

fn attribute_chars(line: &Vec<char>, name: &Vec<char>) -> (r: Option<Vec<char>>)
    ensures
        match r {
            Some(v) => attribute_spec(line@, name@) == Some(v@),
            None => attribute_spec(line@, name@) is None,
        },
{
    let pat = concat_chars(name, &chars_of("=\""));
    let n = line.len();
    match find_vec(line, &pat) {
        Some(st) => {
            proof {
                lemma_find_from_bounds(line@, pat@, 0);
            }
            let vs = st + pat.len();
            let rest = suffix(line, vs);
            match find_either(&rest, '"', '"') {
                Some(e) => {
                    proof {
                        lemma_find_either_bounds(rest@, '"', '"', 0);
                    }
                    let v = slice(line, vs, vs + e);
                    Some(v)
                },
                None => None,
            }
        },
        None => None,
    }
}

/// The value of the XML attribute `attr_name` in a line.
pub fn extract_attribute(line: &str, attr_name: &str) -> (r: Option<String>)
    ensures
        match r {
            Some(v) => attribute_spec(line@, attr_name@) == Some(v@),
            None => attribute_spec(line@, attr_name@) is None,
        },
{
    match attribute_chars(&chars_of(line), &chars_of(attr_name)) {
        Some(v) => Some(string_of(v.as_slice())),
        None => None,
    }
}

/// The covered and total branches of a `condition-coverage` value such as
/// `50% (1/2)`.
pub open spec fn condition_spec(s: Seq<char>) -> Option<(usize, usize)> {
    let open = find_either_from(s, '(', '(', 0);
    let close = find_either_from(s, ')', ')', 0);
    if open is Some && close is Some && close->0 >= open->0 + 1 {
        let parts = split_spec(s.subrange(open->0 + 1, close->0), '/');
        if parts.len() == 2 && parse_usize_spec(parts[0]) is Some && parse_usize_spec(parts[1]) is Some {
            Some((parse_usize_spec(parts[0])->0, parse_usize_spec(parts[1])->0))
        } else {
            None
        }
    } else {
        None
    }
}

fn condition_chars(s: &Vec<char>) -> (r: Option<(usize, usize)>)
    ensures
        r == condition_spec(s@),
{
    proof {
        lemma_find_either_bounds(s@, '(', '(', 0);
        lemma_find_either_bounds(s@, ')', ')', 0);
    }
    match (find_either(s, '(', '('), find_either(s, ')', ')')) {
        (Some(o), Some(c)) => {
            if c <= o {
                return None;
            }
            let parts = split_chars(&slice(s, o + 1, c), '/');
            if parts.len() != 2 {
                return None;
            }
            assert(vviews(parts@)[0] == parts@[0]@);
            assert(vviews(parts@)[1] == parts@[1]@);
            match (parse_usize(&parts[0]), parse_usize(&parts[1])) {
                (Some(a), Some(b)) => Some((a, b)),
                _ => None,
            }
        },
        _ => None,
    }
}

/// Parses a `condition-coverage` value such as `50% (1/2)` into covered and total.
pub fn parse_condition_coverage(coverage_str: &str) -> (r: Option<(usize, usize)>)
    ensures
        r == condition_spec(coverage_str@),
{
    condition_chars(&chars_of(coverage_str))
}

pub open spec fn number_or_zero(v: Option<Seq<char>>) -> usize {
    match v {
        Some(s) => match parse_usize_spec(s) {
            Some(n) => n,
            None => 0,
        },
        None => 0,
    }
}

/// The counts after a `<class>` or `<file>` tag: the previous file is recorded
/// when it counted lines, and the tag's attributes set the new file and totals.
pub open spec fn cobertura_open(st: ReportState, t: Seq<char>) -> ReportState {
    let closed = match st.file {
        Some(cur) => ReportState {
            file: None,
            lt: 0,
            lc: 0,
            bt: 0,
            bc: 0,
            out: if st.lt > 0 {
                st.out.push((cur, st.lt, st.lc, st.bt, st.bc))
            } else {
                st.out
            },
        },
        None => st,
    };
    let file = match attribute_spec(t, "filename"@) {
        Some(f) => Some(f),
        None => match attribute_spec(t, "name"@) {
            Some(f) => Some(f),
            None => closed.file,
        },
    };
    ReportState {
        file,
        lt: if attribute_spec(t, "lines-valid"@) is Some {
            number_or_zero(attribute_spec(t, "lines-valid"@))
        } else {
            closed.lt
        },
        lc: if attribute_spec(t, "lines-covered"@) is Some {
            number_or_zero(attribute_spec(t, "lines-covered"@))
        } else {
            closed.lc
        },
        bt: if attribute_spec(t, "branches-valid"@) is Some {
            number_or_zero(attribute_spec(t, "branches-valid"@))
        } else {
            closed.bt
        },
        bc: if attribute_spec(t, "branches-covered"@) is Some {
            number_or_zero(attribute_spec(t, "branches-covered"@))
        } else {
            closed.bc
        },
        out: closed.out,
    }
}

/// The counts after a `<line>` element of the current file: a `hits`
/// attribute counts a line (covered when positive), a branch line adds its
/// `condition-coverage` fraction.
pub open spec fn cobertura_line(st: ReportState, t: Seq<char>) -> ReportState {
    let st2 = match attribute_spec(t, "hits"@) {
        Some(h) => ReportState {
            lt: inc(st.lt),
            lc: if number_or_zero(Some(h)) > 0 {
                inc(st.lc)
            } else {
                st.lc
            },
            ..st
        },
        None => st,
    };
    let cc = attribute_spec(t, "condition-coverage"@);
    if attribute_spec(t, "branch"@) == Some("true"@) && cc is Some && condition_spec(cc->0) is Some {
        let (c, tot) = condition_spec(cc->0)->0;
        ReportState { bt: sum_sat(st2.bt, tot), bc: sum_sat(st2.bc, c), ..st2 }
    } else {
        st2
    }
}

pub open spec fn cobertura_step(st: ReportState, line: Seq<char>) -> ReportState {
    let t = trim_spec(line);
    let st1 = if contains_spec(t, "<class"@) || contains_spec(t, "<file"@) {
        cobertura_open(st, t)
    } else {
        st
    };
    if st1.file is Some && contains_spec(t, "<line"@) {
        cobertura_line(st1, t)
    } else {
        st1
    }
}

pub open spec fn cobertura_fold(lines: Seq<Seq<char>>) -> ReportState
    decreases lines.len(),
{
    if lines.len() == 0 {
        initial_state()
    } else {
        cobertura_step(cobertura_fold(lines.drop_last()), lines.last())
    }
}

/// The per-file records of a Cobertura report: a file counts when it has lines.
pub open spec fn cobertura_spec(content: Seq<char>) -> Seq<FcView> {
    let st = cobertura_fold(lines_spec(content));
    match st.file {
        Some(cur) => if st.lt > 0 {
            st.out.push((cur, st.lt, st.lc, st.bt, st.bc))
        } else {
            st.out
        },
        None => st.out,
    }
}

fn attr(t: &Vec<char>, name: &str) -> (r: Option<Vec<char>>)
    ensures
        match r {
            Some(v) => attribute_spec(t@, name@) == Some(v@),
            None => attribute_spec(t@, name@) is None,
        },
{
    attribute_chars(t, &chars_of(name))
}

fn number_or_zero_exec(v: &Option<Vec<char>>) -> (r: usize)
    ensures
        r == number_or_zero(
            match v {
                Some(x) => Some(x@),
                None => None,
            },
        ),
{
    match v {
        Some(x) => match parse_usize(x) {
            Some(n) => n,
            None => 0,
        },
        None => 0,
    }
}

pub open spec fn opt_v(v: Option<Vec<char>>) -> Option<Seq<char>> {
    match v {
        Some(x) => Some(x@),
        None => None,
    }
}

fn cobertura_open_exec(p: &mut Parse, t: &Vec<char>)
    ensures
        parse_view(*final(p)) == cobertura_open(parse_view(*old(p)), t@),
{
    let ghost before = parse_view(*p);
    if p.file.is_some() {
        if p.lt > 0 {
            close_file(p);
        } else {
            p.file = None;
            p.lc = 0;
            p.bt = 0;
            p.bc = 0;
        }
    }
    let ghost closed = parse_view(*p);
    match attr(t, "filename") {
        Some(f) => {
            p.file = Some(f);
        },
        None => match attr(t, "name") {
            Some(f) => {
                p.file = Some(f);
            },
            None => {},
        },
    }
    let lv = attr(t, "lines-valid");
    if lv.is_some() {
        p.lt = number_or_zero_exec(&lv);
    }
    let lc = attr(t, "lines-covered");
    if lc.is_some() {
        p.lc = number_or_zero_exec(&lc);
    }
    let bv = attr(t, "branches-valid");
    if bv.is_some() {
        p.bt = number_or_zero_exec(&bv);
    }
    let bc = attr(t, "branches-covered");
    if bc.is_some() {
        p.bc = number_or_zero_exec(&bc);
    }
}

fn cobertura_line_exec(p: &mut Parse, t: &Vec<char>)
    ensures
        parse_view(*final(p)) == cobertura_line(parse_view(*old(p)), t@),
{
    let hits = attr(t, "hits");
    if hits.is_some() {
        let h = number_or_zero_exec(&hits);
        p.lt = inc_exec(p.lt);
        if h > 0 {
            p.lc = inc_exec(p.lc);
        }
    }
    let branch = attr(t, "branch");
    let cc = attr(t, "condition-coverage");
    let is_branch = match &branch {
        Some(b) => eq_vec(b, &chars_of("true")),
        None => false,
    };
    if is_branch {
        match &cc {
            Some(c) => match condition_chars(c) {
                Some((covered, total)) => {
                    p.bt = add_exec(p.bt, total);
                    p.bc = add_exec(p.bc, covered);
                },
                None => {},
            },
            None => {},
        }
    }
}

fn cobertura_line_step(p: &mut Parse, line: &Vec<char>)
    ensures
        parse_view(*final(p)) == cobertura_step(parse_view(*old(p)), line@),
{
    let t = trim(line);
    if contains_vec(&t, &chars_of("<class")) || contains_vec(&t, &chars_of("<file")) {
        cobertura_open_exec(p, &t);
    }
    if p.file.is_some() && contains_vec(&t, &chars_of("<line")) {
        cobertura_line_exec(p, &t);
    }
}

/// The per-file line and branch counts of a Cobertura XML report.
pub fn parse_cobertura_xml(content: &str) -> (r: Vec<FileCoverage>)
    ensures
        fc_views(r@) == cobertura_spec(content@),
{
    let lines = text_lines(content);
    let mut p = Parse { file: None, lt: 0, lc: 0, bt: 0, bc: 0, out: Vec::new() };
    assert(fc_views(p.out@) =~= Seq::<FcView>::empty());
    assert(parse_view(p) == initial_state());
    let mut i: usize = 0;
    while i < lines.len()
        invariant
            i <= lines@.len(),
            vviews(lines@) == lines_spec(content@),
            parse_view(p) == cobertura_fold(vviews(lines@).take(i as int)),
        decreases lines@.len() - i,
    {
        assert(vviews(lines@).take(i + 1).drop_last() =~= vviews(lines@).take(i as int));
        assert(vviews(lines@).take(i + 1).last() == lines@[i as int]@);
        cobertura_line_step(&mut p, &lines[i]);
        i = i + 1;
    }
    assert(vviews(lines@).take(lines@.len() as int) =~= vviews(lines@));
    if p.lt > 0 {
        close_file(&mut p);
    }
    p.out
}

} // verus!
