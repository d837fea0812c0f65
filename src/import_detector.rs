//! Import detection: for each language grammar, the raw path token that an
//! import/include line names, if the statement is one of interest.
use crate::text::{
    after, chars_of, contains_spec, contains_vec, eq_vec, find_either, find_either_from, find_spec,
    find_vec, lemma_find_either_bounds, lemma_find_from_bounds, occurs_at, opt_index, slice,
    starts_with, starts_with_vec, string_of, strip_prefix_vec, suffix, trim, trim_end_char,
    trim_end_char_spec, trim_spec,
};
use vstd::prelude::*;

verus! {

/// One detected import: the file, its 1-based line, the trimmed line and the raw path.
#[derive(Debug, Clone)]
pub struct ImportStatement {
    pub file_path: String,
    pub line_number: usize,
    pub line_content: String,
    pub imported_path: String,
}

/// The import grammar of a language family.
#[derive(Debug, Clone, Copy, PartialEq, Eq, Structural)]
pub enum ImportPattern {
    Rust,
    JavaScript,
    Python,
    Go,
    JavaLike,
    CStyle,
    Ruby,
    Php,
    Shell,
    Css,
}

pub open spec fn opt_view(r: Option<String>) -> Option<Seq<char>> {
    match r {
        Some(s) => Some(s@),
        None => None,
    }
}

pub open spec fn opt_vview(r: Option<Vec<char>>) -> Option<Seq<char>> {
    match r {
        Some(s) => Some(s@),
        None => None,
    }
}

pub open spec fn import_pattern_spec(ext: Seq<char>) -> Option<ImportPattern> {
    if ext == "rs"@ {
        Some(ImportPattern::Rust)
    } else if ext == "js"@ || ext == "jsx"@ || ext == "ts"@ || ext == "tsx"@ || ext == "mjs"@
        || ext == "cjs"@ {
        Some(ImportPattern::JavaScript)
    } else if ext == "py"@ {
        Some(ImportPattern::Python)
    } else if ext == "go"@ {
        Some(ImportPattern::Go)
    } else if ext == "java"@ || ext == "kt"@ || ext == "scala"@ || ext == "cs"@ {
        Some(ImportPattern::JavaLike)
    } else if ext == "c"@ || ext == "cpp"@ || ext == "cc"@ || ext == "cxx"@ || ext == "h"@ || ext
        == "hpp"@ {
        Some(ImportPattern::CStyle)
    } else if ext == "rb"@ {
        Some(ImportPattern::Ruby)
    } else if ext == "php"@ {
        Some(ImportPattern::Php)
    } else if ext == "sh"@ || ext == "bash"@ {
        Some(ImportPattern::Shell)
    } else if ext == "css"@ || ext == "scss"@ || ext == "less"@ {
        Some(ImportPattern::Css)
    } else {
        None
    }
}

/// The text between a leading quote (`"`, `'` or `` ` ``) and the next equal quote.
pub open spec fn quoted_spec(s: Seq<char>) -> Option<Seq<char>> {
    let t = trim_spec(s);
    if t.len() == 0 {
        None
    } else {
        let q = t[0];
        if q == '"' || q == '\'' || q == '`' {
            match find_spec(t.drop_first(), seq![q]) {
                Some(e) => Some(t.subrange(1, e + 1)),
                None => None,
            }
        } else {
            None
        }
    }
}

pub open spec fn rust_import_spec(line: Seq<char>) -> Option<Seq<char>> {
    let t = trim_spec(line);
    if !starts_with(t, "use "@) {
        None
    } else {
        let part = trim_spec(trim_end_char_spec(after(t, "use "@), ';'));
        if starts_with(part, "crate::"@) || starts_with(part, "super::"@) || starts_with(
            part,
            "self::"@,
        ) {
            Some(
                match find_spec(part, "{"@) {
                    Some(b) => trim_spec(part.take(b)),
                    None => match find_spec(part, " as "@) {
                        Some(a) => trim_spec(part.take(a)),
                        None => part,
                    },
                },
            )
        } else {
            None
        }
    }
}

pub open spec fn js_import_spec(line: Seq<char>) -> Option<Seq<char>> {
    let t = trim_spec(line);
    let from = find_spec(t, " from "@);
    if starts_with(t, "import "@) && from is Some {
        quoted_spec(trim_spec(t.subrange(from->0 + " from "@.len(), t.len() as int)))
    } else if starts_with(t, "import "@) && find_either_from(t, '"', '\'', 0) is Some {
        quoted_spec(t.subrange(find_either_from(t, '"', '\'', 0)->0, t.len() as int))
    } else if starts_with(t, "export "@) && from is Some {
        quoted_spec(trim_spec(t.subrange(from->0 + " from "@.len(), t.len() as int)))
    } else if find_spec(t, "require("@) is Some {
        quoted_spec(
            t.subrange(find_spec(t, "require("@)->0 + "require("@.len(), t.len() as int),
        )
    } else {
        None
    }
}

/// The module named between `from ` and ` import `.
pub open spec fn python_from_module(t: Seq<char>) -> Option<Seq<char>> {
    if starts_with(t, "from "@) && find_spec(t, " import "@) is Some {
        let ip = find_spec(t, " import "@)->0;
        if ip >= "from "@.len() {
            Some(trim_spec(t.subrange("from "@.len() as int, ip)))
        } else {
            Some(Seq::empty())
        }
    } else {
        None
    }
}

pub open spec fn python_import_spec(line: Seq<char>) -> Option<Seq<char>> {
    let t = trim_spec(line);
    let m = python_from_module(t);
    if m is Some && starts_with(m->0, "."@) {
        m
    } else if starts_with(t, "import "@) {
        let part = trim_spec(after(t, "import "@));
        let module = match find_spec(part, " as "@) {
            Some(a) => part.take(a),
            None => part,
        };
        if starts_with(module, "."@) {
            Some(trim_spec(module))
        } else {
            None
        }
    } else {
        None
    }
}

pub open spec fn go_import_spec(line: Seq<char>) -> Option<Seq<char>> {
    let t = trim_spec(line);
    if starts_with(t, "import "@) {
        quoted_spec(trim_spec(after(t, "import "@)))
    } else {
        None
    }
}

pub open spec fn javalike_import_spec(line: Seq<char>) -> Option<Seq<char>> {
    let t = trim_spec(line);
    if starts_with(t, "import "@) {
        let part = trim_end_char_spec(trim_spec(after(t, "import "@)), ';');
        if starts_with(part, "static "@) {
            None
        } else {
            Some(part)
        }
    } else if !contains_spec(t, "="@) && starts_with(t, "using "@) {
        Some(trim_end_char_spec(trim_spec(after(t, "using "@)), ';'))
    } else {
        None
    }
}

pub open spec fn c_include_spec(line: Seq<char>) -> Option<Seq<char>> {
    let t = trim_spec(line);
    if !starts_with(t, "#include "@) {
        None
    } else {
        let a = trim_spec(after(t, "#include "@));
        if quoted_spec(a) is Some {
            quoted_spec(a)
        } else if starts_with(a, "<"@) && contains_spec(a, "/"@) && find_spec(a, ">"@) is Some {
            Some(a.subrange(1, find_spec(a, ">"@)->0))
        } else {
            None
        }
    }
}

pub open spec fn ruby_require_spec(line: Seq<char>) -> Option<Seq<char>> {
    let t = trim_spec(line);
    if starts_with(t, "require_relative "@) {
        quoted_spec(trim_spec(after(t, "require_relative "@)))
    } else if starts_with(t, "require "@) && quoted_spec(trim_spec(after(t, "require "@))) is Some
        && starts_with(quoted_spec(trim_spec(after(t, "require "@)))->0, "."@) {
        quoted_spec(trim_spec(after(t, "require "@)))
    } else {
        None
    }
}

pub open spec fn php_try(t: Seq<char>, k: Seq<char>) -> Option<Seq<char>> {
    if starts_with(t, k) {
        quoted_spec(trim_spec(after(t, k)))
    } else {
        None
    }
}

pub open spec fn php_include_spec(line: Seq<char>) -> Option<Seq<char>> {
    let t = trim_spec(line);
    if php_try(t, "require"@) is Some {
        php_try(t, "require"@)
    } else if php_try(t, "require_once"@) is Some {
        php_try(t, "require_once"@)
    } else if php_try(t, "include"@) is Some {
        php_try(t, "include"@)
    } else {
        php_try(t, "include_once"@)
    }
}

pub open spec fn quoted_or_bare(p: Seq<char>) -> Seq<char> {
    match quoted_spec(p) {
        Some(q) => q,
        None => p,
    }
}

pub open spec fn shell_source_spec(line: Seq<char>) -> Option<Seq<char>> {
    let t = trim_spec(line);
    if starts_with(t, "source "@) {
        Some(quoted_or_bare(trim_spec(after(t, "source "@))))
    } else if starts_with(t, ". "@) && !starts_with(t, ".."@) {
        Some(quoted_or_bare(trim_spec(after(t, ". "@))))
    } else {
        None
    }
}

pub open spec fn css_import_spec(line: Seq<char>) -> Option<Seq<char>> {
    let t = trim_spec(line);
    if starts_with(t, "@import "@) {
        quoted_spec(trim_spec(after(t, "@import "@)))
    } else {
        None
    }
}

pub open spec fn import_spec(line: Seq<char>, pattern: ImportPattern) -> Option<Seq<char>> {
    match pattern {
        ImportPattern::Rust => rust_import_spec(line),
        ImportPattern::JavaScript => js_import_spec(line),
        ImportPattern::Python => python_import_spec(line),
        ImportPattern::Go => go_import_spec(line),
        ImportPattern::JavaLike => javalike_import_spec(line),
        ImportPattern::CStyle => c_include_spec(line),
        ImportPattern::Ruby => ruby_require_spec(line),
        ImportPattern::Php => php_include_spec(line),
        ImportPattern::Shell => shell_source_spec(line),
        ImportPattern::Css => css_import_spec(line),
    }
}

fn is(ext: &Vec<char>, lit: &str) -> (r: bool)
    ensures
        r == (ext@ == lit@),
{
    eq_vec(ext, &chars_of(lit))
}

/// The import grammar for a file extension; `None` for extensions without one.
pub fn get_import_pattern(extension: &str) -> (r: Option<ImportPattern>)
    ensures
        r == import_pattern_spec(extension@),
{
    let e = chars_of(extension);
    if is(&e, "rs") {
        Some(ImportPattern::Rust)
    } else if is(&e, "js") || is(&e, "jsx") || is(&e, "ts") || is(&e, "tsx") || is(&e, "mjs")
        || is(&e, "cjs") {
        Some(ImportPattern::JavaScript)
    } else if is(&e, "py") {
        Some(ImportPattern::Python)
    } else if is(&e, "go") {
        Some(ImportPattern::Go)
    } else if is(&e, "java") || is(&e, "kt") || is(&e, "scala") || is(&e, "cs") {
        Some(ImportPattern::JavaLike)
    } else if is(&e, "c") || is(&e, "cpp") || is(&e, "cc") || is(&e, "cxx") || is(&e, "h") || is(
        &e,
        "hpp",
    ) {
        Some(ImportPattern::CStyle)
    } else if is(&e, "rb") {
        Some(ImportPattern::Ruby)
    } else if is(&e, "php") {
        Some(ImportPattern::Php)
    } else if is(&e, "sh") || is(&e, "bash") {
        Some(ImportPattern::Shell)
    } else if is(&e, "css") || is(&e, "scss") || is(&e, "less") {
        Some(ImportPattern::Css)
    } else {
        None
    }
}

fn strip(v: &Vec<char>, lit: &str) -> (r: Option<Vec<char>>)
    ensures
        match r {
            Some(t) => starts_with(v@, lit@) && t@ == after(v@, lit@),
            None => !starts_with(v@, lit@),
        },
{
    strip_prefix_vec(v, &chars_of(lit))
}

fn find_lit(v: &Vec<char>, lit: &str) -> (r: Option<usize>)
    ensures
        opt_index(r) == find_spec(v@, lit@),
        match r {
            Some(k) => occurs_at(v@, lit@, k as int),
            None => true,
        },
{
    let r = find_vec(v, &chars_of(lit));
    proof {
        lemma_find_from_bounds(v@, lit@, 0);
    }
    r
}

fn starts(v: &Vec<char>, lit: &str) -> (r: bool)
    ensures
        r == starts_with(v@, lit@),
{
    starts_with_vec(v, &chars_of(lit))
}

fn quoted_chars(s: &Vec<char>) -> (r: Option<Vec<char>>)
    ensures
        opt_vview(r) == quoted_spec(s@),
{
    let t = trim(s);
    if t.len() == 0 {
        return None;
    }
    let q = t[0];
    if q == '"' || q == '\'' || q == '`' {
        let rest = suffix(&t, 1);
        assert(rest@ =~= t@.drop_first());
        let mut qv: Vec<char> = Vec::new();
        qv.push(q);
        assert(qv@ =~= seq![q]);
        match find_vec(&rest, &qv) {
            Some(e) => {
                proof {
                    lemma_find_from_bounds(rest@, qv@, 0);
                }
                Some(slice(&t, 1, e + 1))
            },
            None => None,
        }
    } else {
        None
    }
}

/// The text between a leading quote and the next equal quote, after trimming.
pub fn extract_quoted_string(s: &str) -> (r: Option<String>)
    ensures
        opt_view(r) == quoted_spec(s@),
{
    match quoted_chars(&chars_of(s)) {
        Some(v) => Some(string_of(v.as_slice())),
        None => None,
    }
}

fn rust_chars(line: &Vec<char>) -> (r: Option<Vec<char>>)
    ensures
        opt_vview(r) == rust_import_spec(line@),
{
    let t = trim(line);
    let rest = match strip(&t, "use ") {
        Some(x) => x,
        None => return None,
    };
    let part = trim(&trim_end_char(&rest, ';'));
    if starts(&part, "crate::") || starts(&part, "super::") || starts(&part, "self::") {
        match find_lit(&part, "{") {
            Some(b) => Some(trim(&slice(&part, 0, b))),
            None => match find_lit(&part, " as ") {
                Some(a) => Some(trim(&slice(&part, 0, a))),
                None => Some(part),
            },
        }
    } else {
        None
    }
}

fn js_chars(line: &Vec<char>) -> (r: Option<Vec<char>>)
    ensures
        opt_vview(r) == js_import_spec(line@),
{
    let t = trim(line);
    let tl = t.len();
    let from = find_lit(&t, " from ");
    let is_import = starts(&t, "import ");
    proof {
        reveal_strlit(" from ");
        reveal_strlit("require(");
        assert(" from "@.len() == 6);
        assert("require("@.len() == 8);
        lemma_find_either_bounds(t@, '"', '\'', 0);
    }
    if is_import && from.is_some() {
        let f = from.unwrap();
        assert(f + 6 <= tl);
        return quoted_chars(&trim(&suffix(&t, f + 6)));
    }
    if is_import {
        match find_either(&t, '"', '\'') {
            Some(q) => {
                return quoted_chars(&suffix(&t, q));
            },
            None => {},
        }
    }
    if starts(&t, "export ") && from.is_some() {
        let f = from.unwrap();
        assert(f + 6 <= tl);
        return quoted_chars(&trim(&suffix(&t, f + 6)));
    }
    match find_lit(&t, "require(") {
        Some(p) => {
            assert(occurs_at(t@, "require("@, p as int));
            assert("require("@.len() == 8) by {
                reveal_strlit("require(");
            }
            quoted_chars(&suffix(&t, p + 8))
        },
        None => None,
    }
}

fn python_from_chars(t: &Vec<char>) -> (r: Option<Vec<char>>)
    ensures
        opt_vview(r) == python_from_module(t@),
{
    proof {
        reveal_strlit("from ");
    }
    if starts(t, "from ") {
        match find_lit(t, " import ") {
            Some(ip) => {
                if ip >= 5 {
                    Some(trim(&slice(t, 5, ip)))
                } else {
                    let e: Vec<char> = Vec::new();
                    assert(e@ =~= Seq::<char>::empty());
                    Some(e)
                }
            },
            None => None,
        }
    } else {
        None
    }
}

fn python_chars(line: &Vec<char>) -> (r: Option<Vec<char>>)
    ensures
        opt_vview(r) == python_import_spec(line@),
{
    let t = trim(line);
    match python_from_chars(&t) {
        Some(m) => {
            if starts(&m, ".") {
                return Some(m);
            }
        },
        None => {},
    }
    match strip(&t, "import ") {
        Some(rest) => {
            let part = trim(&rest);
            let module = match find_lit(&part, " as ") {
                Some(a) => slice(&part, 0, a),
                None => part,
            };
            if starts(&module, ".") {
                Some(trim(&module))
            } else {
                None
            }
        },
        None => None,
    }
}

fn go_chars(line: &Vec<char>) -> (r: Option<Vec<char>>)
    ensures
        opt_vview(r) == go_import_spec(line@),
{
    let t = trim(line);
    match strip(&t, "import ") {
        Some(rest) => quoted_chars(&trim(&rest)),
        None => None,
    }
}

fn javalike_chars(line: &Vec<char>) -> (r: Option<Vec<char>>)
    ensures
        opt_vview(r) == javalike_import_spec(line@),
{
    let t = trim(line);
    match strip(&t, "import ") {
        Some(rest) => {
            let part = trim_end_char(&trim(&rest), ';');
            if starts(&part, "static ") {
                return None;
            }
            return Some(part);
        },
        None => {},
    }
    if !contains_vec(&t, &chars_of("=")) {
        match strip(&t, "using ") {
            Some(rest) => {
                return Some(trim_end_char(&trim(&rest), ';'));
            },
            None => {},
        }
    }
    None
}

fn c_chars(line: &Vec<char>) -> (r: Option<Vec<char>>)
    ensures
        opt_vview(r) == c_include_spec(line@),
{
    let t = trim(line);
    let a = match strip(&t, "#include ") {
        Some(rest) => trim(&rest),
        None => return None,
    };
    match quoted_chars(&a) {
        Some(p) => {
            return Some(p);
        },
        None => {},
    }
    if starts(&a, "<") && contains_vec(&a, &chars_of("/")) {
        proof {
            reveal_strlit("<");
            reveal_strlit(">");
        }
        match find_lit(&a, ">") {
            Some(e) => {
                if e == 0 {
                    assert("<"@[0] == '<');
                    assert(">"@[0] == '>');
                    assert(a@.subrange(0, 1)[0] == a@[0]);
                }
                return Some(slice(&a, 1, e));
            },
            None => {},
        }
    }
    None
}

fn ruby_chars(line: &Vec<char>) -> (r: Option<Vec<char>>)
    ensures
        opt_vview(r) == ruby_require_spec(line@),
{
    let t = trim(line);
    match strip(&t, "require_relative ") {
        Some(rest) => {
            return quoted_chars(&trim(&rest));
        },
        None => {},
    }
    match strip(&t, "require ") {
        Some(rest) => match quoted_chars(&trim(&rest)) {
            Some(p) => {
                if starts(&p, ".") {
                    Some(p)
                } else {
                    None
                }
            },
            None => None,
        },
        None => None,
    }
}

fn php_try_chars(t: &Vec<char>, keyword: &str) -> (r: Option<Vec<char>>)
    ensures
        opt_vview(r) == php_try(t@, keyword@),
{
    match strip(t, keyword) {
        Some(rest) => quoted_chars(&trim(&rest)),
        None => None,
    }
}

fn php_chars(line: &Vec<char>) -> (r: Option<Vec<char>>)
    ensures
        opt_vview(r) == php_include_spec(line@),
{
    let t = trim(line);
    let a = php_try_chars(&t, "require");
    if a.is_some() {
        return a;
    }
    let b = php_try_chars(&t, "require_once");
    if b.is_some() {
        return b;
    }
    let c = php_try_chars(&t, "include");
    if c.is_some() {
        return c;
    }
    php_try_chars(&t, "include_once")
}

fn quoted_or_bare_chars(p: Vec<char>) -> (r: Vec<char>)
    ensures
        r@ == quoted_or_bare(p@),
{
    match quoted_chars(&p) {
        Some(q) => q,
        None => p,
    }
}

fn shell_chars(line: &Vec<char>) -> (r: Option<Vec<char>>)
    ensures
        opt_vview(r) == shell_source_spec(line@),
{
    let t = trim(line);
    match strip(&t, "source ") {
        Some(rest) => {
            return Some(quoted_or_bare_chars(trim(&rest)));
        },
        None => {},
    }
    if !starts(&t, "..") {
        match strip(&t, ". ") {
            Some(rest) => {
                return Some(quoted_or_bare_chars(trim(&rest)));
            },
            None => {},
        }
    }
    None
}

fn css_chars(line: &Vec<char>) -> (r: Option<Vec<char>>)
    ensures
        opt_vview(r) == css_import_spec(line@),
{
    let t = trim(line);
    match strip(&t, "@import ") {
        Some(rest) => quoted_chars(&trim(&rest)),
        None => None,
    }
}

fn import_chars(line: &Vec<char>, pattern: ImportPattern) -> (r: Option<Vec<char>>)
    ensures
        opt_vview(r) == import_spec(line@, pattern),
{
    match pattern {
        ImportPattern::Rust => rust_chars(line),
        ImportPattern::JavaScript => js_chars(line),
        ImportPattern::Python => python_chars(line),
        ImportPattern::Go => go_chars(line),
        ImportPattern::JavaLike => javalike_chars(line),
        ImportPattern::CStyle => c_chars(line),
        ImportPattern::Ruby => ruby_chars(line),
        ImportPattern::Php => php_chars(line),
        ImportPattern::Shell => shell_chars(line),
        ImportPattern::Css => css_chars(line),
    }
}

fn to_string_opt(r: Option<Vec<char>>) -> (s: Option<String>)
    ensures
        opt_view(s) == opt_vview(r),
{
    match r {
        Some(v) => Some(string_of(v.as_slice())),
        None => None,
    }
}

/// The module path of a `use crate::`/`super::`/`self::` statement.
pub fn extract_rust_import(line: &str) -> (r: Option<String>)
    ensures
        opt_view(r) == rust_import_spec(line@),
{
    to_string_opt(rust_chars(&chars_of(line)))
}

/// The quoted path of an `import ... from`, `import "..."`, `export ... from` or `require(...)`.
pub fn extract_javascript_import(line: &str) -> (r: Option<String>)
    ensures
        opt_view(r) == js_import_spec(line@),
{
    to_string_opt(js_chars(&chars_of(line)))
}

/// The module of a relative Python import (one that starts with `.`).
pub fn extract_python_import(line: &str) -> (r: Option<String>)
    ensures
        opt_view(r) == python_import_spec(line@),
{
    to_string_opt(python_chars(&chars_of(line)))
}

/// The quoted path of a Go `import "..."`.
pub fn extract_go_import(line: &str) -> (r: Option<String>)
    ensures
        opt_view(r) == go_import_spec(line@),
{
    to_string_opt(go_chars(&chars_of(line)))
}

/// The target of a Java/Kotlin/Scala `import` (not `static`) or a C# `using`.
pub fn extract_javalike_import(line: &str) -> (r: Option<String>)
    ensures
        opt_view(r) == javalike_import_spec(line@),
{
    to_string_opt(javalike_chars(&chars_of(line)))
}

/// The path of a `#include "..."`, or of a `#include <...>` that holds a `/`.
pub fn extract_c_include(line: &str) -> (r: Option<String>)
    ensures
        opt_view(r) == c_include_spec(line@),
{
    to_string_opt(c_chars(&chars_of(line)))
}

/// The path of a `require_relative`, or of a `require` of a path that starts with `.`.
pub fn extract_ruby_require(line: &str) -> (r: Option<String>)
    ensures
        opt_view(r) == ruby_require_spec(line@),
{
    to_string_opt(ruby_chars(&chars_of(line)))
}

/// The quoted path of a PHP `require`, `require_once`, `include` or `include_once`.
pub fn extract_php_include(line: &str) -> (r: Option<String>)
    ensures
        opt_view(r) == php_include_spec(line@),
{
    to_string_opt(php_chars(&chars_of(line)))
}

/// The path of a shell `source` or `.` command.
pub fn extract_shell_source(line: &str) -> (r: Option<String>)
    ensures
        opt_view(r) == shell_source_spec(line@),
{
    to_string_opt(shell_chars(&chars_of(line)))
}

/// The quoted path of a CSS `@import`.
pub fn extract_css_import(line: &str) -> (r: Option<String>)
    ensures
        opt_view(r) == css_import_spec(line@),
{
    to_string_opt(css_chars(&chars_of(line)))
}

/// The imported path of `line` under the grammar `pattern`.
pub fn extract_import(line: &str, pattern: ImportPattern) -> (r: Option<String>)
    ensures
        opt_view(r) == import_spec(line@, pattern),
{
    to_string_opt(import_chars(&chars_of(line), pattern))
}

} // verus!
