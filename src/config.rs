//! Scan, server and static-build settings.
use crate::commits::{lower_spec, lower_vec, views};
use crate::paths::{extension_spec, extension_vec};
use crate::resolver::{child, has_file};
use crate::text::{chars_of, string_of};
use crate::tree::child_path;
use vstd::prelude::*;

verus! {

/// Options of one scan.
#[derive(Debug, Clone)]
pub struct ScanConfig {
    /// Whether to leave git history (changes, commits, stats) out.
    pub skip_changes: bool,
    /// Whether to attach coverage figures to the features.
    pub should_add_coverage: bool,
    /// A coverage directory that replaces the default search.
    pub coverage_dir_override: Option<String>,
    /// The working directory, one of the places searched for coverage.
    pub current_dir: String,
    /// The project directory, searched for coverage too when given.
    pub project_dir: Option<String>,
}

impl ScanConfig {
    /// Git history included, no coverage, no override, no project directory.
    pub fn new(current_dir: &str) -> (r: ScanConfig)
        ensures
            r.current_dir@ == current_dir@,
            !r.skip_changes,
            !r.should_add_coverage,
            r.coverage_dir_override is None,
            r.project_dir is None,
    {
        ScanConfig {
            skip_changes: false,
            should_add_coverage: false,
            coverage_dir_override: None,
            current_dir: string_of(chars_of(current_dir).as_slice()),
            project_dir: None,
        }
    }

    pub fn skip_changes(self, skip: bool) -> (r: ScanConfig)
        ensures
            r == (ScanConfig { skip_changes: skip, ..self }),
    {
        ScanConfig { skip_changes: skip, ..self }
    }

    pub fn with_coverage(self, should_add: bool) -> (r: ScanConfig)
        ensures
            r == (ScanConfig { should_add_coverage: should_add, ..self }),
    {
        ScanConfig { should_add_coverage: should_add, ..self }
    }

    pub fn coverage_dir(self, dir: &str) -> (r: ScanConfig)
        ensures
            r.coverage_dir_override matches Some(d) && d@ == dir@,
            r.skip_changes == self.skip_changes,
            r.should_add_coverage == self.should_add_coverage,
            r.current_dir == self.current_dir,
            r.project_dir == self.project_dir,
    {
        ScanConfig { coverage_dir_override: Some(string_of(chars_of(dir).as_slice())), ..self }
    }

    pub fn project_dir(self, dir: &str) -> (r: ScanConfig)
        ensures
            r.project_dir matches Some(d) && d@ == dir@,
            r.skip_changes == self.skip_changes,
            r.should_add_coverage == self.should_add_coverage,
            r.current_dir == self.current_dir,
            r.coverage_dir_override == self.coverage_dir_override,
    {
        ScanConfig { project_dir: Some(string_of(chars_of(dir).as_slice())), ..self }
    }
}

/// `v` with `x` added last unless it holds it already.
pub open spec fn push_new(v: Seq<Seq<char>>, x: Seq<char>) -> Seq<Seq<char>> {
    if v.contains(x) {
        v
    } else {
        v.push(x)
    }
}

/// The directories searched for coverage reports, in order: the override
/// alone when there is one; else `.coverage` and `coverage` under the scan
/// root, then under the working directory, then under the project directory
/// when given and not listed yet.
pub open spec fn coverage_dirs_spec(c: ScanConfig, base: Seq<char>) -> Seq<Seq<char>> {
    match c.coverage_dir_override {
        Some(d) => seq![d@],
        None => {
            let dirs = seq![
                child(base, ".coverage"@),
                child(base, "coverage"@),
                child(c.current_dir@, ".coverage"@),
                child(c.current_dir@, "coverage"@),
            ];
            match c.project_dir {
                Some(p) => push_new(push_new(dirs, child(p@, ".coverage"@)), child(p@, "coverage"@)),
                None => dirs,
            }
        },
    }
}

fn push_new_exec(v: &mut Vec<String>, x: String)
    ensures
        views(final(v)@) == push_new(views(old(v)@), x@),
{
    let xv = chars_of(x.as_str());
    if !has_file(v, &xv) {
        let ghost before = views(v@);
        v.push(x);
        assert(views(v@) =~= before.push(xv@));
    }
}

impl ScanConfig {
    /// The directories to search for coverage reports when scanning `base_path`.
    pub fn coverage_search_dirs(&self, base_path: &str) -> (r: Vec<String>)
        ensures
            views(r@) == coverage_dirs_spec(*self, base_path@),
    {
        let mut r: Vec<String> = Vec::new();
        match &self.coverage_dir_override {
            Some(d) => {
                r.push(d.clone());
                assert(views(r@) =~= seq![d@]);
            },
            None => {
                let base = string_of(chars_of(base_path).as_slice());
                let hidden = string_of(chars_of(".coverage").as_slice());
                let plain = string_of(chars_of("coverage").as_slice());
                r.push(child_path(&base, &hidden));
                r.push(child_path(&base, &plain));
                r.push(child_path(&self.current_dir, &hidden));
                r.push(child_path(&self.current_dir, &plain));
                assert(views(r@) =~= seq![
                    child(base_path@, ".coverage"@),
                    child(base_path@, "coverage"@),
                    child(self.current_dir@, ".coverage"@),
                    child(self.current_dir@, "coverage"@),
                ]);
                match &self.project_dir {
                    Some(p) => {
                        push_new_exec(&mut r, child_path(p, &hidden));
                        push_new_exec(&mut r, child_path(p, &plain));
                    },
                    None => {},
                }
            },
        }
        r
    }
}

/// Address and port of the feature server.
#[derive(Debug, Clone, Copy)]
pub struct ServerConfig {
    pub port: u16,
    pub host: [u8; 4],
}

impl Default for ServerConfig {
    /// Port 3000 on 127.0.0.1.
    fn default() -> (r: ServerConfig)
        ensures
            r.port == 3000,
            r.host@ == seq![127u8, 0u8, 0u8, 1u8],
    {
        let r = ServerConfig { port: 3000, host: [127, 0, 0, 1] };
        assert(r.host@ =~= seq![127u8, 0u8, 0u8, 1u8]);
        r
    }
}

impl ServerConfig {
    /// The given port on 127.0.0.1.
    pub fn new(port: u16) -> (r: ServerConfig)
        ensures
            r.port == port,
            r.host@ == seq![127u8, 0u8, 0u8, 1u8],
    {
        let r = ServerConfig { port, host: [127, 0, 0, 1] };
        assert(r.host@ =~= seq![127u8, 0u8, 0u8, 1u8]);
        r
    }

    pub fn with_host(self, host: [u8; 4]) -> (r: ServerConfig)
        ensures
            r.port == self.port,
            r.host == host,
    {
        ServerConfig { host, ..self }
    }
}

/// The files that a static build generates beside the bundled assets.
pub fn list_build_files() -> (r: Vec<String>)
    ensures
        r@.len() == 1,
        r@[0]@ == "features.json"@,
{
    let mut r: Vec<String> = Vec::new();
    r.push(string_of(chars_of("features.json").as_slice()));
    r
}

/// The media type served for a file, by its extension in any letter case.
pub open spec fn content_type_spec(ext: Seq<char>) -> Seq<char> {
    if ext == "html"@ {
        "text/html; charset=utf-8"@
    } else if ext == "css"@ {
        "text/css; charset=utf-8"@
    } else if ext == "js"@ {
        "application/javascript; charset=utf-8"@
    } else if ext == "json"@ {
        "application/json; charset=utf-8"@
    } else if ext == "svg"@ {
        "image/svg+xml"@
    } else if ext == "png"@ {
        "image/png"@
    } else if ext == "jpg"@ || ext == "jpeg"@ {
        "image/jpeg"@
    } else if ext == "gif"@ {
        "image/gif"@
    } else if ext == "ico"@ {
        "image/x-icon"@
    } else if ext == "txt"@ {
        "text/plain; charset=utf-8"@
    } else if ext == "pdf"@ {
        "application/pdf"@
    } else if ext == "xml"@ {
        "application/xml; charset=utf-8"@
    } else if ext == "woff"@ {
        "font/woff"@
    } else if ext == "woff2"@ {
        "font/woff2"@
    } else if ext == "ttf"@ {
        "font/ttf"@
    } else if ext == "eot"@ {
        "application/vnd.ms-fontobject"@
    } else {
        "application/octet-stream"@
    }
}

fn is_ext(e: &Vec<char>, lit: &str) -> (r: bool)
    ensures
        r == (e@ == lit@),
{
    crate::text::eq_vec(e, &chars_of(lit))
}

/// The media type to serve a file under, from its extension.
pub fn get_content_type(path: &str) -> (r: &'static str)
    ensures
        r@ == content_type_spec(lower_spec(extension_spec(path@))),
{
    let e = lower_vec(&extension_vec(&chars_of(path)));
    if is_ext(&e, "html") {
        "text/html; charset=utf-8"
    } else if is_ext(&e, "css") {
        "text/css; charset=utf-8"
    } else if is_ext(&e, "js") {
        "application/javascript; charset=utf-8"
    } else if is_ext(&e, "json") {
        "application/json; charset=utf-8"
    } else if is_ext(&e, "svg") {
        "image/svg+xml"
    } else if is_ext(&e, "png") {
        "image/png"
    } else if is_ext(&e, "jpg") || is_ext(&e, "jpeg") {
        "image/jpeg"
    } else if is_ext(&e, "gif") {
        "image/gif"
    } else if is_ext(&e, "ico") {
        "image/x-icon"
    } else if is_ext(&e, "txt") {
        "text/plain; charset=utf-8"
    } else if is_ext(&e, "pdf") {
        "application/pdf"
    } else if is_ext(&e, "xml") {
        "application/xml; charset=utf-8"
    } else if is_ext(&e, "woff") {
        "font/woff"
    } else if is_ext(&e, "woff2") {
        "font/woff2"
    } else if is_ext(&e, "ttf") {
        "font/ttf"
    } else if is_ext(&e, "eot") {
        "application/vnd.ms-fontobject"
    } else {
        "application/octet-stream"
    }
}

} // verus!
