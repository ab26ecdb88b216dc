//! Locations inside a BitForge project.

use vstd::prelude::*;

use crate::text::{chars_of, is_ascii_alnum, push_char};

verus! {

pub const FORGE_SOURCE_DIR: &'static str = "ForgeSource";
pub const LAYERS_DIR: &'static str = "layers";
pub const BUILD_DIR: &'static str = "build";
pub const STATS_DB_FILE: &'static str = "stats.db";
pub const GRAPH_DB_FILE: &'static str = "graph.db";
pub const GITIGNORE_FILE: &'static str = ".gitignore";

/// `Path::join` on Unix: an absolute `part` replaces `base`; otherwise a
/// separator is added unless `base` is empty or already ends with one.
pub open spec fn path_join(base: Seq<char>, part: Seq<char>) -> Seq<char> {
    if part.len() > 0 && part[0] == '/' {
        part
    } else if base.len() == 0 || base.last() == '/' {
        base + part
    } else {
        base + "/"@ + part
    }
}

/// `base.join(part)`.
pub fn join(base: &str, part: &str) -> (r: String)
    ensures
        r@ == path_join(base@, part@),
{
    let b = chars_of(base);
    let p = chars_of(part);
    if p.len() > 0 && p[0] == '/' {
        return String::from_str(part);
    }
    let mut out = String::from_str(base);
    if !(b.len() == 0 || b[b.len() - 1] == '/') {
        push_char(&mut out, '/');
        proof {
            reveal_strlit("/");
            assert(out@ =~= base@ + "/"@);
        }
    }
    out.append(part);
    out
}

/// The directories and databases of a project.
#[derive(Debug)]
pub struct ProjectPaths {
    pub force_source: String,
    pub layers: String,
    pub build: String,
    pub stats_db: String,
    pub graph_db: String,
}

impl ProjectPaths {
    /// The locations under `root`.
    pub fn new(root: &str) -> (r: Self)
        ensures
            r.force_source@ == path_join(root@, FORGE_SOURCE_DIR@),
            r.layers@ == path_join(r.force_source@, LAYERS_DIR@),
            r.stats_db@ == path_join(r.force_source@, STATS_DB_FILE@),
            r.graph_db@ == path_join(r.force_source@, GRAPH_DB_FILE@),
            r.build@ == path_join(root@, BUILD_DIR@),
    {
        let force_source = join(root, FORGE_SOURCE_DIR);
        let layers = join(force_source.as_str(), LAYERS_DIR);
        let stats_db = join(force_source.as_str(), STATS_DB_FILE);
        let graph_db = join(force_source.as_str(), GRAPH_DB_FILE);
        let build = join(root, BUILD_DIR);
        ProjectPaths { force_source, layers, build, stats_db, graph_db }
    }
}

/// The statistics database of the project at `root`.
pub fn stats_db_path(root: &str) -> (r: String)
    ensures
        r@ == path_join(path_join(root@, FORGE_SOURCE_DIR@), STATS_DB_FILE@),
{
    let source = join(root, FORGE_SOURCE_DIR);
    join(source.as_str(), STATS_DB_FILE)
}

/// Whether a character is alphanumeric in Unicode (`char::is_alphanumeric`).
pub uninterp spec fn unicode_alphanumeric(c: char) -> bool;

/// `char::is_alphanumeric`: the character is alphabetic or numeric in
/// Unicode; among ASCII characters exactly the letters and digits are.
#[verifier::external_body]
fn char_is_alphanumeric(c: char) -> (r: bool)
    ensures
        r == unicode_alphanumeric(c),
        is_ascii_alnum(c) ==> r,
        (c as u32) < 128 && !is_ascii_alnum(c) ==> !r,
{
    c.is_alphanumeric()
}

/// Whether `graph_slug` keeps a character: an alphanumeric one (among ASCII
/// characters, a letter or digit), `-` or `_`.
pub open spec fn graph_slug_keeps(c: char) -> bool {
    if (c as u32) < 128 {
        is_ascii_alnum(c) || c == '-' || c == '_'
    } else {
        unicode_alphanumeric(c)
    }
}

/// The character `graph_slug` keeps, or `_`.
pub open spec fn graph_slug_char(c: char) -> char {
    if graph_slug_keeps(c) {
        c
    } else {
        '_'
    }
}

/// An image name made safe as a directory name.
pub open spec fn graph_slug_spec(image: Seq<char>) -> Seq<char> {
    image.map_values(|c: char| graph_slug_char(c))
}

/// The directory name under which an image's graph files are kept.
pub fn graph_slug(image: &str) -> (r: String)
    ensures
        r@ == graph_slug_spec(image@),
{
    let chars = chars_of(image);
    let mut out = String::new();
    let mut i: usize = 0;
    while i < chars.len()
        invariant
            i <= chars@.len(),
            chars@ == image@,
            out@ == graph_slug_spec(image@.take(i as int)),
        decreases chars@.len() - i,
    {
        let c = chars[i];
        let keep = char_is_alphanumeric(c) || c == '-' || c == '_';
        push_char(&mut out, if keep {
            c
        } else {
            '_'
        });
        i = i + 1;
        assert(out@ =~= graph_slug_spec(image@.take(i as int)));
    }
    assert(image@.take(image@.len() as int) =~= image@);
    out
}

/// The task dependency graph kept for `image`.
pub fn graph_dot_path(root: &str, image: &str) -> (r: String)
    ensures
        r@ == path_join(
            path_join(path_join(path_join(root@, FORGE_SOURCE_DIR@), "graph"@), graph_slug_spec(image@)),
            "task-depends.dot"@,
        ),
{
    let source = join(root, FORGE_SOURCE_DIR);
    let graph = join(source.as_str(), "graph");
    let slug = graph_slug(image);
    let dir = join(graph.as_str(), slug.as_str());
    join(dir.as_str(), "task-depends.dot")
}

/// Where a layer keeps the WKS file of `image`.
pub fn wks_destination(layer_path: &str, image: &str) -> (r: String)
    ensures
        r@ == path_join(path_join(layer_path@, "wic"@), image@ + ".wks"@),
{
    let wic = join(layer_path, "wic");
    let mut file = String::from_str(image);
    file.append(".wks");
    join(wic.as_str(), file.as_str())
}


/// The files whose contents decide whether cached BitBake results still
/// hold, relative to the project; the layers directory counts too.
pub open spec fn signature_files_spec() -> Seq<Seq<char>> {
    seq!["conf/local.conf"@, "conf/bblayers.conf"@, "BitForge.toml"@, "BitForge.lock"@]
}

pub fn signature_files() -> (r: Vec<String>)
    ensures
        crate::text::string_views(r@) == signature_files_spec(),
{
    let mut v: Vec<String> = Vec::new();
    v.push(String::from_str("conf/local.conf"));
    v.push(String::from_str("conf/bblayers.conf"));
    v.push(String::from_str("BitForge.toml"));
    v.push(String::from_str("BitForge.lock"));
    assert(crate::text::string_views(v@) =~= signature_files_spec());
    v
}


/// The directory where the graph files of `image` are kept.
pub fn graph_dir(root: &str, image: &str) -> (r: String)
    ensures
        r@ == path_join(path_join(path_join(root@, FORGE_SOURCE_DIR@), "graph"@), graph_slug_spec(image@)),
{
    let source = join(root, FORGE_SOURCE_DIR);
    let graph = join(source.as_str(), "graph");
    let slug = graph_slug(image);
    join(graph.as_str(), slug.as_str())
}

/// The files `bitbake -g` writes that are kept for an image.
pub open spec fn graph_artifacts_spec() -> Seq<Seq<char>> {
    seq!["task-depends.dot"@, "pn-buildlist"@, "recipe-depends.dot"@, "package-depends.dot"@]
}

pub fn graph_artifacts() -> (r: Vec<String>)
    ensures
        crate::text::string_views(r@) == graph_artifacts_spec(),
{
    let mut v: Vec<String> = Vec::new();
    v.push(String::from_str("task-depends.dot"));
    v.push(String::from_str("pn-buildlist"));
    v.push(String::from_str("recipe-depends.dot"));
    v.push(String::from_str("package-depends.dot"));
    assert(crate::text::string_views(v@) =~= graph_artifacts_spec());
    v
}


/// A graph slug has as many characters as the image name, and no `/`, `.`
/// or space.
pub proof fn law_graph_slug_is_a_plain_name(image: Seq<char>)
    ensures
        graph_slug_spec(image).len() == image.len(),
        forall|i: int|
            0 <= i < image.len() ==> {
                let c = #[trigger] graph_slug_spec(image)[i];
                c != '/' && c != '.' && c != ' '
            },
{
}

/// Making a slug of a graph slug changes nothing.
pub proof fn law_graph_slug_idempotent(image: Seq<char>)
    ensures
        graph_slug_spec(graph_slug_spec(image)) == graph_slug_spec(image),
{
    assert(graph_slug_spec(graph_slug_spec(image)) =~= graph_slug_spec(image));
}

} // verus!
