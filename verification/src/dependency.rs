//! `--dependency-add`, `--dependency-remove`, delinking and relinking.
//!
//! A dependency spec reads `URL[@REF][#LAYER[@REF],LAYER...]`, where a
//! reference is `b:BRANCH`, `t:TAG` or `c:COMMIT`.

use vstd::prelude::*;

use crate::config::{
    dep_map, slug, slug_spec, urls_agree, BitForgeConfig, ConfigError, DepModel, LayerDependency,
};
use crate::records::GitRef;
use crate::sorted_map::SortedMap;
use crate::text::{
    chars_of, copy_opt_string, rsplit_once, rsplit_once_exec, split, split_exec, split_once,
    split_once_exec, string_of, trim_char, trim_char_exec, trim_end_char, trim_end_char_exec,
    trim_end_seq, trim_end_seq_exec, trim_ws, trim_ws_exec, views, decimal,
};

verus! {

// ---------------------------------------------------------------------------
// Errors
// ---------------------------------------------------------------------------

/// Why a dependency command is refused.
#[derive(Debug)]
pub enum DependencyError {
    /// The spec has no URL before its reference or layer list.
    MissingUrl { spec: String },
    /// A reference without `:`.
    BadRef { reference: String },
    /// A reference with nothing after `:`.
    MissingRefValue { reference: String },
    /// A reference kind other than `b`, `c` and `t`.
    UnknownRefKind { kind: String },
    /// The layer list names no layer.
    NoLayers { spec: String },
    /// The path is not that of a dependency layer.
    NotDependencyLayer { path: String },
    /// No dependency has that name.
    NotTracked { name: String },
    /// The manifest would no longer be valid.
    Invalid(ConfigError),
}

impl DependencyError {
    pub open spec fn message_spec(&self) -> Seq<char> {
        match self {
            DependencyError::MissingUrl { spec } => "missing git url in dependency spec '"@ + spec@
                + "'"@,
            DependencyError::BadRef { reference } => "expected `@b|c|t:value` in ref '"@
                + reference@ + "'"@,
            DependencyError::MissingRefValue { reference } => "missing ref value in '"@
                + reference@ + "'"@,
            DependencyError::UnknownRefKind { kind } => "unknown ref kind '"@ + kind@
                + "', expected b (branch), c (commit) or t (tag)"@,
            DependencyError::NoLayers { spec } => "no layers resolved from dependency spec '"@
                + spec@ + "'"@,
            DependencyError::NotDependencyLayer { path } => "'"@ + path@
                + "' is not a dependency layer"@,
            DependencyError::NotTracked { name } => "'"@ + name@ + "' is not a tracked dependency"@,
            DependencyError::Invalid(e) => e.message_spec(),
        }
    }

    /// The error's text.
    pub fn message(&self) -> (r: String)
        ensures
            r@ == self.message_spec(),
    {
        match self {
            DependencyError::MissingUrl { spec } => quoted("missing git url in dependency spec '", spec, "'"),
            DependencyError::BadRef { reference } => quoted("expected `@b|c|t:value` in ref '", reference, "'"),
            DependencyError::MissingRefValue { reference } => quoted("missing ref value in '", reference, "'"),
            DependencyError::UnknownRefKind { kind } => quoted(
                "unknown ref kind '",
                kind,
                "', expected b (branch), c (commit) or t (tag)",
            ),
            DependencyError::NoLayers { spec } => quoted("no layers resolved from dependency spec '", spec, "'"),
            DependencyError::NotDependencyLayer { path } => quoted("'", path, "' is not a dependency layer"),
            DependencyError::NotTracked { name } => quoted("'", name, "' is not a tracked dependency"),
            DependencyError::Invalid(e) => e.message(),
        }
    }
}

/// `before`, `middle` and `after`, one after the other.
fn quoted(before: &str, middle: &String, after: &str) -> (r: String)
    ensures
        r@ == before@ + middle@ + after@,
{
    let mut s = String::from_str(before);
    s.append(middle.as_str());
    s.append(after);
    s
}

// ---------------------------------------------------------------------------
// References
// ---------------------------------------------------------------------------

/// `KIND:VALUE` with a non-empty value and a kind of `b`, `c` or `t`.
pub open spec fn valid_ref(reference: Seq<char>) -> bool {
    match split_once(reference, ":"@) {
        Some((kind, value)) => value.len() > 0 && (kind == "b"@ || kind == "c"@ || kind == "t"@),
        None => false,
    }
}

proof fn distinct_kinds()
    ensures
        "b"@ != "c"@,
        "b"@ != "t"@,
        "c"@ != "t"@,
{
    reveal_strlit("b");
    reveal_strlit("c");
    reveal_strlit("t");
    assert("b"@[0] != "c"@[0]);
    assert("b"@[0] != "t"@[0]);
    assert("c"@[0] != "t"@[0]);
}

/// Whether `reference` is a reference rather than part of a URL or path.
pub fn is_ref_spec(reference: &str) -> (r: bool)
    ensures
        r == valid_ref(reference@),
{
    let chars = chars_of(reference);
    let colon = chars_of(":");
    match split_once_exec(&chars, &colon) {
        Some((kind, value)) => {
            let k = string_of(&kind);
            value.len() > 0 && (crate::text::eq_str(&k, "b") || crate::text::eq_str(&k, "c")
                || crate::text::eq_str(&k, "t"))
        },
        None => false,
    }
}

/// Stores the value of `reference` in the field its kind names.
pub fn apply_ref(
    reference: &str,
    branch: &mut Option<String>,
    tag: &mut Option<String>,
    commit: &mut Option<String>,
) -> (r: Result<(), DependencyError>)
    ensures
        match split_once(reference@, ":"@) {
            None => {
                &&& r matches Err(DependencyError::BadRef { reference: x }) && x@ == reference@
                &&& *final(branch) == *old(branch) && *final(tag) == *old(tag) && *final(commit)
                    == *old(commit)
            },
            Some((kind, value)) => if value.len() == 0 {
                &&& r matches Err(DependencyError::MissingRefValue { reference: x }) && x@
                    == reference@
                &&& *final(branch) == *old(branch) && *final(tag) == *old(tag) && *final(commit)
                    == *old(commit)
            } else if kind == "b"@ {
                &&& r is Ok
                &&& crate::text::opt_view(*final(branch)) == Some(value)
                &&& *final(tag) == *old(tag) && *final(commit) == *old(commit)
            } else if kind == "c"@ {
                &&& r is Ok
                &&& crate::text::opt_view(*final(commit)) == Some(value)
                &&& *final(tag) == *old(tag) && *final(branch) == *old(branch)
            } else if kind == "t"@ {
                &&& r is Ok
                &&& crate::text::opt_view(*final(tag)) == Some(value)
                &&& *final(branch) == *old(branch) && *final(commit) == *old(commit)
            } else {
                &&& r matches Err(DependencyError::UnknownRefKind { kind: x }) && x@ == kind
                &&& *final(branch) == *old(branch) && *final(tag) == *old(tag) && *final(commit)
                    == *old(commit)
            },
        },
{
    let chars = chars_of(reference);
    let colon = chars_of(":");
    let (kind, value) = match split_once_exec(&chars, &colon) {
        Some(parts) => parts,
        None => {
            return Err(DependencyError::BadRef { reference: String::from_str(reference) });
        },
    };
    if value.len() == 0 {
        return Err(DependencyError::MissingRefValue { reference: String::from_str(reference) });
    }
    let k = string_of(&kind);
    let v = string_of(&value);
    if crate::text::eq_str(&k, "b") {
        *branch = Some(v);
    } else if crate::text::eq_str(&k, "c") {
        *commit = Some(v);
    } else if crate::text::eq_str(&k, "t") {
        *tag = Some(v);
    } else {
        return Err(DependencyError::UnknownRefKind { kind: k });
    }
    Ok(())
}

/// The branch, tag and commit a valid reference names (at most one is set).
pub open spec fn ref_fields(reference: Option<Seq<char>>) -> (
    Option<Seq<char>>,
    Option<Seq<char>>,
    Option<Seq<char>>,
) {
    match reference {
        Some(r) => match split_once(r, ":"@) {
            Some((kind, value)) => if kind == "b"@ {
                (Some(value), None, None)
            } else if kind == "t"@ {
                (None, Some(value), None)
            } else {
                (None, None, Some(value))
            },
            None => (None, None, None),
        },
        None => (None, None, None),
    }
}

/// `s` split at its last `@` when what follows is a valid reference.
pub open spec fn split_at_ref(s: Seq<char>) -> (Seq<char>, Option<Seq<char>>) {
    match rsplit_once(s, "@"@) {
        Some((before, reference)) => if valid_ref(reference) {
            (before, Some(reference))
        } else {
            (s, None)
        },
        None => (s, None),
    }
}

fn split_at_ref_exec(s: &Vec<char>) -> (r: (Vec<char>, Option<String>))
    ensures
        (r.0@, crate::text::opt_view(r.1)) == split_at_ref(s@),
{
    let at = chars_of("@");
    match rsplit_once_exec(s, &at) {
        Some((before, reference)) => {
            let text = string_of(&reference);
            if is_ref_spec(text.as_str()) {
                (before, Some(text))
            } else {
                (slice_all(s), None)
            }
        },
        None => (slice_all(s), None),
    }
}

fn slice_all(s: &Vec<char>) -> (r: Vec<char>)
    ensures
        r@ == s@,
{
    let r = crate::text::slice_chars(s, 0, s.len());
    assert(r@ =~= s@);
    r
}

// ---------------------------------------------------------------------------
// Names taken from URLs
// ---------------------------------------------------------------------------

pub open spec fn is_sep(c: char) -> bool {
    c == '/' || c == ':'
}

/// What follows the last `/` or `:` of `s` (all of `s` when it has none).
pub open spec fn after_last_sep(s: Seq<char>) -> Seq<char>
    decreases s.len(),
{
    if s.len() == 0 {
        s
    } else if is_sep(s.last()) {
        Seq::empty()
    } else {
        after_last_sep(s.drop_last()).push(s.last())
    }
}

/// The repository name of a URL: its last path segment without `.git`.
pub open spec fn name_from_url(url: Seq<char>) -> Seq<char> {
    trim_end_seq(after_last_sep(trim_end_char(url, '/')), ".git"@)
}

fn after_last_sep_exec(s: &Vec<char>) -> (r: Vec<char>)
    ensures
        r@ == after_last_sep(s@),
{
    let mut cur: Vec<char> = Vec::new();
    let mut i: usize = 0;
    while i < s.len()
        invariant
            i <= s@.len(),
            cur@ == after_last_sep(s@.take(i as int)),
        decreases s@.len() - i,
    {
        let c = s[i];
        assert(s@.take(i + 1).drop_last() =~= s@.take(i as int));
        if c == '/' || c == ':' {
            cur = Vec::new();
            assert(cur@ =~= after_last_sep(s@.take(i + 1)));
        } else {
            cur.push(c);
        }
        i = i + 1;
    }
    assert(s@.take(s@.len() as int) =~= s@);
    cur
}

/// The repository name a dependency gets from its URL.
pub fn derive_dependency_name_from_url(git_url: &str) -> (r: String)
    ensures
        r@ == name_from_url(git_url@),
{
    let chars = chars_of(git_url);
    let trimmed = trim_end_char_exec(&chars, '/');
    let last = after_last_sep_exec(&trimmed);
    let dot_git = chars_of(".git");
    let name = trim_end_seq_exec(&last, &dot_git);
    string_of(&name)
}

// ---------------------------------------------------------------------------
// Dependency specs
// ---------------------------------------------------------------------------

/// One layer named by a dependency spec.
#[derive(Debug)]
pub struct ParsedLayer {
    pub name: String,
    pub path: Option<String>,
    pub branch: Option<String>,
    pub tag: Option<String>,
    pub commit: Option<String>,
    pub explicit_ref: bool,
}

/// A parsed dependency spec.
#[derive(Debug)]
pub struct ParsedDependencySpec {
    pub git_url: String,
    pub source_branch: Option<String>,
    pub source_tag: Option<String>,
    pub source_commit: Option<String>,
    pub layers: Vec<ParsedLayer>,
}

/// A parsed layer over character sequences.
pub struct LayerModel {
    pub name: Seq<char>,
    pub path: Option<Seq<char>>,
    pub branch: Option<Seq<char>>,
    pub tag: Option<Seq<char>>,
    pub commit: Option<Seq<char>>,
    pub explicit_ref: bool,
}

/// A parsed spec over character sequences.
pub struct SpecModel {
    pub git_url: Seq<char>,
    pub source_branch: Option<Seq<char>>,
    pub source_tag: Option<Seq<char>>,
    pub source_commit: Option<Seq<char>>,
    pub layers: Seq<LayerModel>,
}

impl View for ParsedLayer {
    type V = LayerModel;

    open spec fn view(&self) -> LayerModel {
        LayerModel {
            name: self.name@,
            path: crate::text::opt_view(self.path),
            branch: crate::text::opt_view(self.branch),
            tag: crate::text::opt_view(self.tag),
            commit: crate::text::opt_view(self.commit),
            explicit_ref: self.explicit_ref,
        }
    }
}

pub open spec fn layer_views(v: Seq<ParsedLayer>) -> Seq<LayerModel> {
    v.map_values(|l: ParsedLayer| l@)
}

impl View for ParsedDependencySpec {
    type V = SpecModel;

    open spec fn view(&self) -> SpecModel {
        SpecModel {
            git_url: self.git_url@,
            source_branch: crate::text::opt_view(self.source_branch),
            source_tag: crate::text::opt_view(self.source_tag),
            source_commit: crate::text::opt_view(self.source_commit),
            layers: layer_views(self.layers@),
        }
    }
}

/// The layer an entry of the layer list names, if any: the entry is
/// trimmed, an `@REF` suffix taken off, and surrounding `/` dropped; an
/// entry with a `/` names its last segment and keeps the whole as its path.
pub open spec fn layer_of_entry(raw: Seq<char>) -> Option<LayerModel> {
    let entry = trim_ws(raw);
    if entry.len() == 0 {
        None
    } else {
        let (name_part, entry_ref) = split_at_ref(entry);
        let name = trim_char(name_part, '/');
        if name.len() == 0 {
            None
        } else {
            let (b, t, c) = ref_fields(entry_ref);
            let (n, path) = match rsplit_once(name, "/"@) {
                Some((_, last)) => if last.len() > 0 {
                    (last, Some(name))
                } else {
                    (name, None)
                },
                None => (name, None),
            };
            Some(LayerModel { name: n, path, branch: b, tag: t, commit: c, explicit_ref: entry_ref is Some })
        }
    }
}

/// The layers named by the entries of a layer list, in order.
pub open spec fn entry_layers(entries: Seq<Seq<char>>) -> Seq<LayerModel>
    decreases entries.len(),
{
    if entries.len() == 0 {
        Seq::empty()
    } else {
        let before = entry_layers(entries.drop_last());
        match layer_of_entry(entries.last()) {
            Some(l) => before.push(l),
            None => before,
        }
    }
}

/// The part of a spec before its `#`, and the layer list after it.
pub open spec fn spec_parts(spec: Seq<char>) -> (Seq<char>, Option<Seq<char>>) {
    match split_once(spec, "#"@) {
        Some((main, sub)) => (main, Some(sub)),
        None => (spec, None),
    }
}

/// The git URL of a spec.
pub open spec fn spec_url(spec: Seq<char>) -> Seq<char> {
    split_at_ref(spec_parts(spec).0).0
}

/// The layers of a spec: those of its layer list, or, with no non-blank
/// list, the one layer named after the repository.
pub open spec fn spec_layers(spec: Seq<char>) -> Seq<LayerModel> {
    let default = seq![
        LayerModel {
            name: name_from_url(spec_url(spec)),
            path: None,
            branch: None,
            tag: None,
            commit: None,
            explicit_ref: false,
        },
    ];
    match spec_parts(spec).1 {
        Some(sub) => if trim_ws(sub).len() > 0 {
            entry_layers(split(sub, ","@))
        } else {
            default
        },
        None => default,
    }
}

/// The parsed form of a spec that names a URL and at least one layer.
pub open spec fn spec_model(spec: Seq<char>) -> SpecModel {
    let (b, t, c) = ref_fields(split_at_ref(spec_parts(spec).0).1);
    SpecModel {
        git_url: spec_url(spec),
        source_branch: b,
        source_tag: t,
        source_commit: c,
        layers: spec_layers(spec),
    }
}

/// Parses a dependency spec.
pub fn parse_dependency_spec(spec: &str) -> (r: Result<ParsedDependencySpec, DependencyError>)
    ensures
        spec_url(spec@).len() == 0 ==> (r matches Err(DependencyError::MissingUrl { spec: s })
            && s@ == spec@),
        spec_url(spec@).len() > 0 && spec_layers(spec@).len() == 0 ==> (r matches Err(
            DependencyError::NoLayers { spec: s },
        ) && s@ == spec@),
        spec_url(spec@).len() > 0 && spec_layers(spec@).len() > 0 ==> (r matches Ok(p) && p@
            == spec_model(spec@)),
{
    let chars = chars_of(spec);
    let hash = chars_of("#");
    let (main_part, sub_part) = match split_once_exec(&chars, &hash) {
        Some((main, sub)) => (main, Some(sub)),
        None => (slice_all(&chars), None),
    };
    let (url_chars, source_ref) = split_at_ref_exec(&main_part);
    if url_chars.len() == 0 {
        return Err(DependencyError::MissingUrl { spec: String::from_str(spec) });
    }
    let git_url = string_of(&url_chars);
    let mut source_branch: Option<String> = None;
    let mut source_tag: Option<String> = None;
    let mut source_commit: Option<String> = None;
    proof {
        distinct_kinds();
    }
    if let Some(reference) = &source_ref {
        match apply_ref(reference.as_str(), &mut source_branch, &mut source_tag, &mut source_commit) {
            Ok(()) => {},
            Err(e) => {
                return Err(e);
            },
        }
    }
    let mut layers: Vec<ParsedLayer> = Vec::new();
    let listed = match &sub_part {
        Some(sub) => trim_ws_exec(sub).len() > 0,
        None => false,
    };
    if listed {
        let sub = match sub_part {
            Some(s) => s,
            None => Vec::new(),
        };
        let comma = chars_of(",");
        proof {
            reveal_strlit(",");
        }
        let entries = split_exec(&sub, &comma);
        let mut i: usize = 0;
        while i < entries.len()
            invariant
                i <= entries@.len(),
                layer_views(layers@) == entry_layers(views(entries@).take(i as int)),
            decreases entries@.len() - i,
        {
            let ghost taken = views(entries@).take(i + 1);
            assert(taken.drop_last() =~= views(entries@).take(i as int));
            assert(taken.last() == entries@[i as int]@);
            let entry = trim_ws_exec(&entries[i]);
            i = i + 1;
            if entry.len() == 0 {
                assert(layer_of_entry(taken.last()) is None);
                continue;
            }
            let (name_part, entry_ref) = split_at_ref_exec(&entry);
            let name = trim_char_exec(&name_part, '/');
            if name.len() == 0 {
                assert(layer_of_entry(taken.last()) is None);
                continue;
            }
            let mut branch: Option<String> = None;
            let mut tag: Option<String> = None;
            let mut commit: Option<String> = None;
            let explicit_ref = entry_ref.is_some();
            if let Some(reference) = &entry_ref {
                match apply_ref(reference.as_str(), &mut branch, &mut tag, &mut commit) {
                    Ok(()) => {},
                    Err(e) => {
                        return Err(e);
                    },
                }
            }
            let slash = chars_of("/");
            let (layer_name, path) = match rsplit_once_exec(&name, &slash) {
                Some((_, last)) => if last.len() > 0 {
                    (string_of(&last), Some(string_of(&name)))
                } else {
                    (string_of(&name), None)
                },
                None => (string_of(&name), None),
            };
            let layer = ParsedLayer { name: layer_name, path, branch, tag, commit, explicit_ref };
            proof {
                distinct_kinds();
            }
            assert(layer_of_entry(taken.last()) == Some(layer@));
            let ghost before = layer_views(layers@);
            layers.push(layer);
            assert(layer_views(layers@) =~= before.push(layer@));
        }
        assert(views(entries@).take(entries@.len() as int) =~= views(entries@));
    } else {
        let name = derive_dependency_name_from_url(git_url.as_str());
        layers.push(
            ParsedLayer {
                name,
                path: None,
                branch: None,
                tag: None,
                commit: None,
                explicit_ref: false,
            },
        );
        assert(layer_views(layers@) =~= spec_layers(spec@));
    }
    if layers.len() == 0 {
        return Err(DependencyError::NoLayers { spec: String::from_str(spec) });
    }
    Ok(ParsedDependencySpec { git_url, source_branch, source_tag, source_commit, layers })
}


// ---------------------------------------------------------------------------
// Choosing the repository name
// ---------------------------------------------------------------------------

/// The pieces of `s` between `/` and `:` separators (`str::split` on both).
pub open spec fn sep_pieces(s: Seq<char>) -> Seq<Seq<char>>
    decreases s.len(),
{
    if s.len() == 0 {
        seq![Seq::empty()]
    } else if is_sep(s.last()) {
        sep_pieces(s.drop_last()).push(Seq::empty())
    } else {
        let p = sep_pieces(s.drop_last());
        p.update(p.len() - 1, p.last().push(s.last()))
    }
}

/// The non-empty pieces, in order.
pub open spec fn nonempty_pieces(ps: Seq<Seq<char>>) -> Seq<Seq<char>>
    decreases ps.len(),
{
    if ps.len() == 0 {
        Seq::empty()
    } else if ps.last().len() > 0 {
        nonempty_pieces(ps.drop_last()).push(ps.last())
    } else {
        nonempty_pieces(ps.drop_last())
    }
}

pub proof fn lemma_sep_pieces_len(s: Seq<char>)
    ensures
        sep_pieces(s).len() >= 1,
    decreases s.len(),
{
    if s.len() > 0 {
        lemma_sep_pieces_len(s.drop_last());
    }
}

/// The non-empty segments of a URL without its trailing `/` and `.git`.
pub open spec fn url_segments(url: Seq<char>) -> Seq<Seq<char>> {
    nonempty_pieces(sep_pieces(trim_end_seq(trim_end_char(url, '/'), ".git"@)))
}

/// The names tried when the repository name is taken: `OWNER-NAME`, then
/// `HOST-OWNER-NAME`.
pub open spec fn alias_candidates_spec(url: Seq<char>, base: Seq<char>) -> Seq<Seq<char>> {
    let segs = url_segments(url);
    let n = segs.len();
    let first: Seq<Seq<char>> = if n >= 2 {
        seq![slug_spec(segs[n - 2]) + "-"@ + base]
    } else {
        Seq::empty()
    };
    let second: Seq<Seq<char>> = if n >= 3 {
        seq![slug_spec(segs[n - 3]) + "-"@ + slug_spec(segs[n - 2]) + "-"@ + base]
    } else {
        Seq::empty()
    };
    first + second
}

/// ASCII letters and digits kept, anything else `-`.
pub fn alias_slug(value: &str) -> (r: String)
    ensures
        r@ == slug_spec(value@),
{
    slug(value)
}

fn url_segments_exec(url: &str) -> (r: Vec<String>)
    ensures
        crate::text::string_views(r@) == url_segments(url@),
{
    let chars = chars_of(url);
    let t = trim_end_char_exec(&chars, '/');
    let dot_git = chars_of(".git");
    let s = trim_end_seq_exec(&t, &dot_git);
    let mut out: Vec<String> = Vec::new();
    let mut cur: Vec<char> = Vec::new();
    let ghost mut done: Seq<Seq<char>> = Seq::empty();
    let mut i: usize = 0;
    assert(s@.take(0) =~= Seq::<char>::empty());
    assert(sep_pieces(s@.take(0)) =~= done.push(cur@));
    while i < s.len()
        invariant
            i <= s@.len(),
            sep_pieces(s@.take(i as int)) == done.push(cur@),
            crate::text::string_views(out@) == nonempty_pieces(done),
        decreases s@.len() - i,
    {
        let c = s[i];
        assert(s@.take(i + 1).drop_last() =~= s@.take(i as int));
        if c == '/' || c == ':' {
            let ghost piece = cur@;
            if cur.len() > 0 {
                let ghost before = out@;
                out.push(string_of(&cur));
                assert(crate::text::string_views(out@) =~= crate::text::string_views(before).push(
                    piece,
                ));
            }
            proof {
                assert(done.push(piece).drop_last() =~= done);
                done = done.push(piece);
            }
            cur = Vec::new();
            assert(sep_pieces(s@.take(i + 1)) =~= done.push(cur@));
        } else {
            let ghost p = done.push(cur@);
            cur.push(c);
            assert(sep_pieces(s@.take(i + 1)) =~= p.update(p.len() - 1, p.last().push(c)));
            assert(p.update(p.len() - 1, p.last().push(c)) =~= done.push(cur@));
        }
        i = i + 1;
    }
    assert(s@.take(s@.len() as int) =~= s@);
    assert(done.push(cur@).drop_last() =~= done);
    if cur.len() > 0 {
        let ghost before = out@;
        out.push(string_of(&cur));
        assert(crate::text::string_views(out@) =~= crate::text::string_views(before).push(cur@));
    }
    out
}

/// `OWNER-BASE` and `HOST-OWNER-BASE`, where the URL has such segments.
pub fn alias_candidates(git_url: &str, base: &str) -> (r: Vec<String>)
    ensures
        crate::text::string_views(r@) == alias_candidates_spec(git_url@, base@),
{
    let segments = url_segments_exec(git_url);
    let ghost segs = url_segments(git_url@);
    let n = segments.len();
    let mut candidates: Vec<String> = Vec::new();
    if n >= 2 {
        assert(segments@[n - 2]@ == segs[n - 2]);
        let owner = alias_slug(segments[n - 2].as_str());
        let mut c = owner;
        c.append("-");
        c.append(base);
        candidates.push(c);
    }
    if n >= 3 {
        assert(segments@[n - 3]@ == segs[n - 3]);
        assert(segments@[n - 2]@ == segs[n - 2]);
        let host = alias_slug(segments[n - 3].as_str());
        let owner = alias_slug(segments[n - 2].as_str());
        let mut c = host;
        c.append("-");
        c.append(owner.as_str());
        c.append("-");
        c.append(base);
        candidates.push(c);
    }
    assert(crate::text::string_views(candidates@) =~= alias_candidates_spec(git_url@, base@));
    candidates
}

/// `name` is unused, or names a repository with the same URL.
pub open spec fn free_or_same(cfg: BitForgeConfig, url: Seq<char>, name: Seq<char>) -> bool {
    match cfg.dependency_giturl_spec(name) {
        None => true,
        Some(existing) => existing == url,
    }
}

/// `BASE-K`.
pub open spec fn suffixed(base: Seq<char>, k: nat) -> Seq<char> {
    base + "-"@ + decimal(k)
}

/// The repository name given to `url`: its own name if free (or already
/// holding the same URL), else the first free alias, else the first free
/// `NAME-K` for `K = 2, 3, ...`.
pub open spec fn allocated(cfg: BitForgeConfig, url: Seq<char>, r: Seq<char>) -> bool {
    let base = name_from_url(url);
    let aliases = alias_candidates_spec(url, base);
    if free_or_same(cfg, url, base) {
        r == base
    } else if exists|i: int| 0 <= i < aliases.len() && free_or_same(cfg, url, #[trigger] aliases[i]) {
        exists|i: int|
            0 <= i < aliases.len() && r == aliases[i] && free_or_same(cfg, url, #[trigger] aliases[i])
                && forall|j: int| 0 <= j < i ==> !free_or_same(cfg, url, #[trigger] aliases[j])
    } else {
        exists|k: nat|
            k >= 2 && r == suffixed(base, k) && free_or_same(cfg, url, r) && forall|j: nat|
                2 <= j < k ==> !free_or_same(cfg, url, #[trigger] suffixed(base, j))
    }
}

/// A repository holds as many names as it has entries, so among the names
/// `BASE-2 ... BASE-(k-1)` at most that many are taken.
pub proof fn lemma_taken_suffixes(cfg: BitForgeConfig, url: Seq<char>, base: Seq<char>, k: int)
    requires
        k >= 2,
        forall|j: nat| 2 <= j < k ==> !free_or_same(cfg, url, #[trigger] suffixed(base, j)),
    ensures
        k - 2 <= cfg.dependency.entries@.len(),
{
    let keys = cfg.dependency.keys();
    let key_set = keys.to_set();
    let f = |j: int| suffixed(base, j as nat);
    let dom = vstd::set_lib::set_int_range(2, k);
    vstd::set_lib::lemma_int_range(2, k);
    reveal_strlit("-");
    assert(vstd::relations::injective_on(f, dom)) by {
        assert forall|x1: int, x2: int|
            dom.contains(x1) && dom.contains(x2) && #[trigger] f(x1) == #[trigger] f(x2) implies x1
            == x2 by {
            let n: int = base.len() as int + 1;
            assert(f(x1).skip(n) =~= decimal(x1 as nat));
            assert(f(x2).skip(n) =~= decimal(x2 as nat));
            crate::text::lemma_decimal_injective(x1 as nat, x2 as nat);
        }
    }
    let img = dom.map(f);
    vstd::set_lib::lemma_map_size(dom, img, f);
    assert(img.subset_of(key_set)) by {
        assert forall|y: Seq<char>| img.contains(y) implies key_set.contains(y) by {
            let j = choose|j: int| dom.contains(j) && f(j) == y;
            assert(!free_or_same(cfg, url, suffixed(base, j as nat)));
            assert(cfg.dependency.get_spec(y) is Some);
            crate::table::lemma_lookup_some(cfg.dependency.entries@, y);
            let i = choose|i: int|
                0 <= i < cfg.dependency.entries@.len() && (#[trigger] cfg.dependency.entries@[i]).0@
                    == y;
            assert(keys[i] == y);
        }
    }
    keys.lemma_cardinality_of_set();
    vstd::seq_lib::seq_to_set_is_finite(keys);
    vstd::set_lib::lemma_len_subset(img, key_set);
}

fn is_free_or_same(config: &BitForgeConfig, candidate: &str, git_url: &str) -> (r: bool)
    requires
        config.wf(),
    ensures
        r == free_or_same(*config, git_url@, candidate@),
{
    match config.dependency_giturl(candidate) {
        None => true,
        Some(existing) => crate::text::eq_str(&existing, git_url),
    }
}

/// The repository name for a new dependency on `git_url`.
pub fn allocate_gitname(config: &BitForgeConfig, git_url: &str) -> (r: String)
    requires
        config.wf(),
        config.dependency.entries@.len() + 2 <= usize::MAX,
    ensures
        allocated(*config, git_url@, r@),
{
    let base = derive_dependency_name_from_url(git_url);
    if is_free_or_same(config, base.as_str(), git_url) {
        return base;
    }
    let candidates = alias_candidates(git_url, base.as_str());
    let ghost aliases = alias_candidates_spec(git_url@, base@);
    let mut i: usize = 0;
    while i < candidates.len()
        invariant
            i <= candidates@.len(),
            config.wf(),
            crate::text::string_views(candidates@) == aliases,
            aliases == alias_candidates_spec(git_url@, base@),
            base@ == name_from_url(git_url@),
            !free_or_same(*config, git_url@, base@),
            forall|j: int| 0 <= j < i ==> !free_or_same(*config, git_url@, #[trigger] aliases[j]),
        decreases candidates@.len() - i,
    {
        assert(candidates@[i as int]@ == aliases[i as int]);
        if is_free_or_same(config, candidates[i].as_str(), git_url) {
            let found = candidates[i].clone();
            assert(free_or_same(*config, git_url@, aliases[i as int]));
            assert(found@ == aliases[i as int]);
            return found;
        }
        i = i + 1;
    }
    assert(forall|j: int| 0 <= j < aliases.len() ==> !free_or_same(*config, git_url@, #[trigger] aliases[j]));
    let mut suffix: usize = 2;
    loop
        invariant
            2 <= suffix <= config.dependency.entries@.len() + 2,
            config.wf(),
            config.dependency.entries@.len() + 2 <= usize::MAX,
            !free_or_same(*config, git_url@, base@),
            base@ == name_from_url(git_url@),
            forall|j: int| 0 <= j < aliases.len() ==> !free_or_same(*config, git_url@, #[trigger] aliases[j]),
            aliases == alias_candidates_spec(git_url@, base@),
            forall|j: nat| 2 <= j < suffix ==> !free_or_same(*config, git_url@, #[trigger] suffixed(base@, j)),
        decreases config.dependency.entries@.len() + 2 - suffix,
    {
        let mut candidate = base.clone();
        candidate.append("-");
        let digits = crate::text::decimal_string(suffix as u64);
        candidate.append(digits.as_str());
        assert(candidate@ == suffixed(base@, suffix as nat));
        if is_free_or_same(config, candidate.as_str(), git_url) {
            return candidate;
        }
        proof {
            lemma_taken_suffixes(*config, git_url@, base@, suffix + 1);
        }
        suffix = suffix + 1;
    }
}

// ---------------------------------------------------------------------------
// Adding, delinking, relinking and removing
// ---------------------------------------------------------------------------

/// The reference a layer's worktree checks out: commit, else tag, else branch.
pub fn layer_git_ref(layer: &LayerDependency) -> (r: Option<GitRef>)
    ensures
        match (layer.commit, layer.tag, layer.branch) {
            (Some(c), _, _) => r matches Some(GitRef::Commit(x)) && x@ == c@,
            (None, Some(t), _) => r matches Some(GitRef::Tag(x)) && x@ == t@,
            (None, None, Some(b)) => r matches Some(GitRef::Branch(x)) && x@ == b@,
            (None, None, None) => r is None,
        },
{
    if let Some(commit) = &layer.commit {
        Some(GitRef::Commit(commit.clone()))
    } else if let Some(tag) = &layer.tag {
        Some(GitRef::Tag(tag.clone()))
    } else {
        match &layer.branch {
            Some(b) => Some(GitRef::Branch(b.clone())),
            None => None,
        }
    }
}

/// The reference a new layer pins: its own, else the spec's, else the
/// project's release branch.
pub open spec fn chosen_ref(p: SpecModel, l: LayerModel, release: Seq<char>) -> (
    Option<Seq<char>>,
    Option<Seq<char>>,
    Option<Seq<char>>,
) {
    if l.explicit_ref {
        (l.branch, l.tag, l.commit)
    } else if p.source_branch is Some || p.source_tag is Some || p.source_commit is Some {
        (p.source_branch, p.source_tag, p.source_commit)
    } else {
        (Some(release), None, None)
    }
}

/// The key a new layer is stored under: its name, unless a layer of that
/// name with another path is there already, in which case its path.
pub open spec fn layer_key(m: Map<Seq<char>, DepModel>, l: LayerModel) -> Seq<char> {
    if m.contains_key(l.name) && m[l.name].path != l.path {
        match l.path {
            Some(path) => path,
            None => l.name,
        }
    } else {
        l.name
    }
}

/// The repository's layers after adding `layers` one after the other, and
/// the keys they were stored under.
pub open spec fn add_layers(
    m: Map<Seq<char>, DepModel>,
    p: SpecModel,
    layers: Seq<LayerModel>,
    release: Seq<char>,
) -> (Map<Seq<char>, DepModel>, Seq<Seq<char>>)
    decreases layers.len(),
{
    if layers.len() == 0 {
        (m, Seq::empty())
    } else {
        let (m1, keys) = add_layers(m, p, layers.drop_last(), release);
        let l = layers.last();
        let key = layer_key(m1, l);
        let (b, t, c) = chosen_ref(p, l, release);
        (
            m1.insert(key, DepModel { giturl: p.git_url, branch: b, tag: t, commit: c, path: l.path }),
            keys.push(key),
        )
    }
}

/// Each layer added from a spec pins the reference asked for: its own
/// reference when it names one; else the spec-wide branch, tag and commit
/// when the spec names any; else the project's release branch. It records
/// the spec's URL and its own path. This holds of every layer that no later
/// layer of the same spec overwrote.
pub proof fn law_added_layers_pin_the_requested_ref(
    m: Map<Seq<char>, DepModel>,
    p: SpecModel,
    layers: Seq<LayerModel>,
    release: Seq<char>,
    i: int,
)
    requires
        0 <= i < layers.len(),
        forall|j: int| i < j < layers.len() ==> add_layers(m, p, layers, release).1[j]
            != add_layers(m, p, layers, release).1[i],
    ensures
        ({
            let (m2, keys) = add_layers(m, p, layers, release);
            let l = layers[i];
            &&& keys.len() == layers.len()
            &&& m2.contains_key(keys[i])
            &&& m2[keys[i]].giturl == p.git_url
            &&& m2[keys[i]].path == l.path
            &&& (l.explicit_ref ==> m2[keys[i]].branch == l.branch && m2[keys[i]].tag == l.tag
                && m2[keys[i]].commit == l.commit)
            &&& (!l.explicit_ref && (p.source_branch is Some || p.source_tag is Some
                || p.source_commit is Some) ==> m2[keys[i]].branch == p.source_branch
                && m2[keys[i]].tag == p.source_tag && m2[keys[i]].commit == p.source_commit)
            &&& (!l.explicit_ref && p.source_branch is None && p.source_tag is None
                && p.source_commit is None ==> m2[keys[i]].branch == Some(release)
                && m2[keys[i]].tag is None && m2[keys[i]].commit is None)
        }),
    decreases layers.len(),
{
    lemma_add_layers_len(m, p, layers, release);
    let (m1, keys1) = add_layers(m, p, layers.drop_last(), release);
    lemma_add_layers_len(m, p, layers.drop_last(), release);
    let (m2, keys) = add_layers(m, p, layers, release);
    if i < layers.len() - 1 {
        assert(keys[i] == keys1[i]);
        assert forall|j: int| i < j < layers.drop_last().len() implies keys1[j] != keys1[i] by {
            assert(keys[j] == keys1[j]);
        }
        law_added_layers_pin_the_requested_ref(m, p, layers.drop_last(), release, i);
        assert(layers.drop_last()[i] == layers[i]);
        assert(keys[layers.len() - 1] != keys[i]);
    }
}

proof fn lemma_add_layers_len(
    m: Map<Seq<char>, DepModel>,
    p: SpecModel,
    layers: Seq<LayerModel>,
    release: Seq<char>,
)
    ensures
        add_layers(m, p, layers, release).1.len() == layers.len(),
    decreases layers.len(),
{
    if layers.len() > 0 {
        lemma_add_layers_len(m, p, layers.drop_last(), release);
    }
}

proof fn lemma_first_char_at(s: Seq<char>, p: Seq<char>, k: int)
    requires
        p.len() == 1,
        0 <= k < s.len(),
        s[k] == p[0],
        forall|j: int| 0 <= j < k ==> s[j] != p[0],
    ensures
        crate::text::index_of(s, p) == k,
{
    crate::text::lemma_index_of(s, p);
    assert(s.subrange(k, k + 1) =~= p);
    assert(crate::text::matches_at(s, p, k));
    let r = crate::text::index_of(s, p);
    if 0 <= r && r < k {
        assert(crate::text::matches_at(s, p, r));
        assert(s.subrange(r, r + 1)[0] == s[r]);
    }
}

proof fn lemma_last_char_at(s: Seq<char>, p: Seq<char>, k: int)
    requires
        p.len() == 1,
        0 <= k < s.len(),
        s[k] == p[0],
        forall|j: int| k < j < s.len() ==> s[j] != p[0],
    ensures
        crate::text::last_index_of(s, p) == k,
{
    crate::text::lemma_last_index_of(s, p);
    assert(s.subrange(k, k + 1) =~= p);
    assert(crate::text::matches_at(s, p, k));
    let r = crate::text::last_index_of(s, p);
    if r > k {
        assert(crate::text::matches_at(s, p, r));
        assert(s.subrange(r, r + 1)[0] == s[r]);
    }
}

/// A reference written once for the whole spec, `URL@b:BRANCH`,
/// `URL@t:TAG` or `URL@c:COMMIT` before the layer list, is the spec's
/// branch, tag or commit, and the URL is what precedes it, whatever the
/// layer list holds.
pub proof fn law_spec_wide_reference(url: Seq<char>, kind: char, value: Seq<char>, layers: Seq<char>)
    requires
        !url.contains('#'),
        kind == 'b' || kind == 't' || kind == 'c',
        value.len() > 0,
        !value.contains('@'),
        !value.contains('#'),
    ensures
        ({
            let spec = url + seq!['@', kind, ':'] + value + seq!['#'] + layers;
            let m = spec_model(spec);
            &&& spec_url(spec) == url
            &&& m.git_url == url
            &&& kind == 'b' ==> m.source_branch == Some(value) && m.source_tag is None
                && m.source_commit is None
            &&& kind == 't' ==> m.source_tag == Some(value) && m.source_branch is None
                && m.source_commit is None
            &&& kind == 'c' ==> m.source_commit == Some(value) && m.source_branch is None
                && m.source_tag is None
        }),
{
    reveal_strlit("#");
    reveal_strlit("@");
    reveal_strlit(":");
    reveal_strlit("b");
    reveal_strlit("c");
    reveal_strlit("t");
    let main = url + seq!['@', kind, ':'] + value;
    let spec = main + seq!['#'] + layers;
    assert(spec =~= url + seq!['@', kind, ':'] + value + seq!['#'] + layers);
    let h = main.len() as int;
    assert forall|j: int| 0 <= j < h implies spec[j] != "#"@[0] by {
        assert(spec[j] == main[j]);
        if j < url.len() {
            assert(main[j] == url[j]);
            assert(!url.contains('#'));
        } else if j >= url.len() + 3 {
            assert(main[j] == value[j - url.len() - 3]);
        }
    }
    lemma_first_char_at(spec, "#"@, h);
    assert(spec.take(h) =~= main);
    assert(spec.skip(h + 1) =~= layers);
    assert(spec_parts(spec) == (main, Some(layers)));
    let a = url.len() as int;
    assert forall|j: int| a < j < main.len() implies main[j] != "@"@[0] by {
        if j >= a + 3 {
            assert(main[j] == value[j - a - 3]);
        }
    }
    lemma_last_char_at(main, "@"@, a);
    let reference = seq![kind, ':'] + value;
    assert(main.take(a) =~= url);
    assert(main.skip(a + 1) =~= reference);
    assert(reference[1] == ":"@[0]);
    lemma_first_char_at(reference, ":"@, 1);
    assert(reference.take(1) =~= seq![kind]);
    assert(reference.skip(2) =~= value);
    if kind == 'b' {
        assert(seq![kind] =~= "b"@);
    } else if kind == 't' {
        assert(seq![kind] =~= "t"@);
    } else {
        assert(seq![kind] =~= "c"@);
    }
    distinct_kinds();
    assert(valid_ref(reference));
    assert(split_at_ref(main) == (url, Some(reference)));
}

/// The layers of repository `g` in a manifest (none if it has no such repository).
pub open spec fn repo_map(cfg: BitForgeConfig, g: Seq<char>) -> Map<Seq<char>, DepModel> {
    match cfg.dependency.get_spec(g) {
        Some(inner) => dep_map(inner),
        None => Map::empty(),
    }
}

/// At most one name is allocated to a URL.
pub proof fn lemma_allocated_unique(cfg: BitForgeConfig, url: Seq<char>, a: Seq<char>, b: Seq<char>)
    requires
        allocated(cfg, url, a),
        allocated(cfg, url, b),
    ensures
        a == b,
{
    let base = name_from_url(url);
    let aliases = alias_candidates_spec(url, base);
    if !free_or_same(cfg, url, base) {
        if exists|i: int| 0 <= i < aliases.len() && free_or_same(cfg, url, #[trigger] aliases[i]) {
            let i = choose|i: int|
                0 <= i < aliases.len() && a == aliases[i] && free_or_same(cfg, url, #[trigger] aliases[i])
                    && forall|j: int| 0 <= j < i ==> !free_or_same(cfg, url, #[trigger] aliases[j]);
            let k = choose|k: int|
                0 <= k < aliases.len() && b == aliases[k] && free_or_same(cfg, url, #[trigger] aliases[k])
                    && forall|j: int| 0 <= j < k ==> !free_or_same(cfg, url, #[trigger] aliases[j]);
            if i < k {
                assert(!free_or_same(cfg, url, aliases[i]));
            } else if k < i {
                assert(!free_or_same(cfg, url, aliases[k]));
            }
        } else {
            let i = choose|i: nat|
                i >= 2 && a == suffixed(base, i) && free_or_same(cfg, url, a) && forall|j: nat|
                    2 <= j < i ==> !free_or_same(cfg, url, #[trigger] suffixed(base, j));
            let k = choose|k: nat|
                k >= 2 && b == suffixed(base, k) && free_or_same(cfg, url, b) && forall|j: nat|
                    2 <= j < k ==> !free_or_same(cfg, url, #[trigger] suffixed(base, j));
            if i < k {
                assert(!free_or_same(cfg, url, suffixed(base, i)));
            } else if k < i {
                assert(!free_or_same(cfg, url, suffixed(base, k)));
            }
        }
    }
}

/// The name `allocate_gitname` gives `url` in `cfg`.
pub open spec fn allocated_name(cfg: BitForgeConfig, url: Seq<char>) -> Seq<char> {
    choose|g: Seq<char>| allocated(cfg, url, g)
}

/// What [`run_dependency_add`] makes of manifest `before` for `spec`:
/// `after` and the result `r`.
pub open spec fn add_outcome(
    before: BitForgeConfig,
    spec: Seq<char>,
    after: BitForgeConfig,
    r: Result<(String, Vec<String>), DependencyError>,
) -> bool {
    &&& (spec_url(spec).len() == 0 ==> (r matches Err(DependencyError::MissingUrl { spec: s })
            && s@ == spec && after == before))
    &&& (spec_url(spec).len() > 0 && spec_layers(spec).len() == 0 ==> (r matches Err(
            DependencyError::NoLayers { spec: s },
        ) && s@ == spec && after == before))
    &&& (spec_url(spec).len() > 0 && spec_layers(spec).len() > 0 ==> ({
            let p = spec_model(spec);
            let g = allocated_name(before, p.git_url);
            let (m, keys) = add_layers(
                repo_map(before, g),
                p,
                p.layers,
                before.effective_release_spec(),
            );
            &&& allocated(before, p.git_url, g)
            &&& after.dependency.get_spec(g) is Some
            &&& dep_map(after.dependency.get_spec(g)->0) == m
            &&& forall|k: Seq<char>|
                k != g ==> after.dependency.get_spec(k) == before.dependency.get_spec(k)
            &&& after.same_but_dependency(before)
            &&& (r is Ok <==> after.all_urls_agree())
            &&& (r matches Ok((name, added)) ==> name@ == g && crate::text::string_views(added@)
                == keys)
            &&& (r is Err ==> r->Err_0 is Invalid)
        }))
}

/// Adds the layers of a dependency spec to the manifest: the repository is
/// named by [`allocate_gitname`], each layer pins its own reference, else
/// the spec's, else the project's release, and the manifest is validated.
/// Returns the repository name and the keys the layers were stored under.
pub fn run_dependency_add(config: &mut BitForgeConfig, spec: &str) -> (r: Result<
    (String, Vec<String>),
    DependencyError,
>)
    requires
        old(config).wf(),
        old(config).dependency.entries@.len() + 2 <= usize::MAX,
    ensures
        final(config).wf(),
        add_outcome(*old(config), spec@, *final(config), r),
{
    let parsed = match parse_dependency_spec(spec) {
        Ok(p) => p,
        Err(e) => {
            return Err(e);
        },
    };
    let ghost old_cfg = *config;
    let ghost p = parsed@;
    let gitname = allocate_gitname(config, parsed.git_url.as_str());
    proof {
        lemma_allocated_unique(old_cfg, p.git_url, gitname@, allocated_name(old_cfg, p.git_url));
    }
    let release = config.effective_release();
    let ghost base_map = repo_map(old_cfg, gitname@);
    let mut inner = match config.dependency.remove(&gitname) {
        Some(m) => m,
        None => SortedMap::new(),
    };
    assert(dep_map(inner) =~= base_map);
    let mut added: Vec<String> = Vec::new();
    let mut i: usize = 0;
    while i < parsed.layers.len()
        invariant
            i <= parsed.layers@.len(),
            p == parsed@,
            inner.wf(),
            release@ == old_cfg.effective_release_spec(),
            (dep_map(inner), crate::text::string_views(added@)) == add_layers(
                base_map,
                p,
                p.layers.take(i as int),
                release@,
            ),
        decreases parsed.layers@.len() - i,
    {
        let layer = &parsed.layers[i];
        let ghost l = layer@;
        assert(p.layers[i as int] == l);
        assert(p.layers.take(i + 1).drop_last() =~= p.layers.take(i as int));
        let ghost prev_map = dep_map(inner);
        let ghost prev_keys = crate::text::string_views(added@);
        let (branch, tag, commit) = if layer.explicit_ref {
            (copy_opt_string(&layer.branch), copy_opt_string(&layer.tag), copy_opt_string(&layer.commit))
        } else if parsed.source_branch.is_some() || parsed.source_tag.is_some()
            || parsed.source_commit.is_some() {
            (
                copy_opt_string(&parsed.source_branch),
                copy_opt_string(&parsed.source_tag),
                copy_opt_string(&parsed.source_commit),
            )
        } else {
            (Some(release.clone()), None, None)
        };
        let mut key = layer.name.clone();
        if let Some(existing) = inner.get(&key) {
            if !crate::text::opt_str_eq(&existing.path, &layer.path) {
                key = match &layer.path {
                    Some(path) => path.clone(),
                    None => layer.name.clone(),
                };
            }
        }
        assert(key@ == layer_key(prev_map, l));
        let dep = LayerDependency {
            giturl: parsed.git_url.clone(),
            branch,
            tag,
            commit,
            path: copy_opt_string(&layer.path),
        };
        let ghost (b, t, c) = chosen_ref(p, l, release@);
        assert(dep@ == DepModel { giturl: p.git_url, branch: b, tag: t, commit: c, path: l.path });
        inner.insert(key.clone(), dep);
        assert(dep_map(inner) =~= prev_map.insert(key@, dep@));
        added.push(key);
        assert(crate::text::string_views(added@) =~= prev_keys.push(key@));
        i = i + 1;
    }
    assert(p.layers.take(parsed.layers@.len() as int) =~= p.layers);
    let ghost before_insert = *config;
    config.dependency.insert(gitname.clone(), inner);
    assert(config.wf()) by {
        assert forall|k: Seq<char>| #[trigger] config.dependency.get_spec(k) is Some implies config.dependency.get_spec(k)->0.wf() by {
            if k != gitname@ {
                assert(before_insert.dependency.get_spec(k) == old_cfg.dependency.get_spec(k));
            }
        }
    }
    match config.validate() {
        Ok(()) => Ok((gitname, added)),
        Err(e) => Err(DependencyError::Invalid(e)),
    }
}

/// `disabled` with `path` added unless it is listed already.
pub open spec fn with_disabled(disabled: Seq<Seq<char>>, path: Seq<char>) -> Seq<Seq<char>> {
    if disabled.contains(path) {
        disabled
    } else {
        disabled.push(path)
    }
}

/// `disabled` without any entry equal to `path`.
pub open spec fn without_disabled(disabled: Seq<Seq<char>>, path: Seq<char>) -> Seq<Seq<char>>
    decreases disabled.len(),
{
    if disabled.len() == 0 {
        disabled
    } else {
        let rest = without_disabled(disabled.drop_last(), path);
        if disabled.last() != path {
            rest.push(disabled.last())
        } else {
            rest
        }
    }
}

/// Delinks the dependency layer at `layer_path`: it stays on disk but is
/// listed as disabled. `dependency_layer_paths` are the paths of the
/// enabled dependency layers; any other path is refused.
pub fn run_dependency_delink(
    config: &mut BitForgeConfig,
    layer_path: &str,
    dependency_layer_paths: &Vec<String>,
) -> (r: Result<(), DependencyError>)
    ensures
        !crate::text::string_views(dependency_layer_paths@).contains(layer_path@) ==> (r matches Err(
            DependencyError::NotDependencyLayer { path },
        ) && path@ == layer_path@ && *final(config) == *old(config)),
        crate::text::string_views(dependency_layer_paths@).contains(layer_path@) ==> (r is Ok
            && final(config).same_but_disabled(*old(config)) && crate::text::string_views(
            final(config).disabled@,
        ) == with_disabled(crate::text::string_views(old(config).disabled@), layer_path@)),
{
    if !crate::text::contains_str(dependency_layer_paths, layer_path) {
        return Err(DependencyError::NotDependencyLayer { path: String::from_str(layer_path) });
    }
    if !crate::text::contains_str(&config.disabled, layer_path) {
        let ghost before = crate::text::string_views(config.disabled@);
        config.disabled.push(String::from_str(layer_path));
        assert(crate::text::string_views(config.disabled@) =~= before.push(layer_path@));
    }
    Ok(())
}

/// Relinks `layer_path`: it is no longer listed as disabled.
pub fn run_dependency_relink(config: &mut BitForgeConfig, layer_path: &str)
    ensures
        final(config).same_but_disabled(*old(config)),
        crate::text::string_views(final(config).disabled@) == without_disabled(
            crate::text::string_views(old(config).disabled@),
            layer_path@,
        ),
{
    let ghost all = crate::text::string_views(config.disabled@);
    let mut kept: Vec<String> = Vec::new();
    let mut i: usize = 0;
    while i < config.disabled.len()
        invariant
            i <= config.disabled@.len(),
            all == crate::text::string_views(config.disabled@),
            crate::text::string_views(kept@) == without_disabled(all.take(i as int), layer_path@),
        decreases config.disabled@.len() - i,
    {
        assert(all.take(i + 1).drop_last() =~= all.take(i as int));
        assert(all.take(i + 1).last() == config.disabled@[i as int]@);
        if !crate::text::eq_str(&config.disabled[i], layer_path) {
            let ghost before = crate::text::string_views(kept@);
            kept.push(config.disabled[i].clone());
            assert(crate::text::string_views(kept@) =~= before.push(config.disabled@[i as int]@));
        }
        i = i + 1;
    }
    assert(all.take(all.len() as int) =~= all);
    config.disabled = kept;
}

/// Delinking a layer that was not disabled, then relinking it, leaves the
/// disabled list as it was.
pub proof fn law_relink_undoes_delink(disabled: Seq<Seq<char>>, path: Seq<char>)
    requires
        !disabled.contains(path),
    ensures
        without_disabled(with_disabled(disabled, path), path) == disabled,
{
    assert(disabled.push(path).drop_last() =~= disabled);
    lemma_filter_keeps_all(disabled, path);
}

proof fn lemma_filter_keeps_all(d: Seq<Seq<char>>, path: Seq<char>)
    requires
        !d.contains(path),
    ensures
        without_disabled(d, path) == d,
    decreases d.len(),
{
    if d.len() > 0 {
        assert(!d.drop_last().contains(path)) by {
            if d.drop_last().contains(path) {
                let j = choose|j: int| 0 <= j < d.drop_last().len() && d.drop_last()[j] == path;
                assert(d[j] == path);
            }
        }
        lemma_filter_keeps_all(d.drop_last(), path);
        assert(d[d.len() - 1] != path);
        assert(d.drop_last().push(d.last()) =~= d);
    }
}

/// The disabled entries kept when dependency `name` is removed: those that
/// are neither `name` nor under `ForgeSource/layers/NAME`.
pub open spec fn kept_after_remove(disabled: Seq<Seq<char>>, name: Seq<char>) -> Seq<Seq<char>>
    decreases disabled.len(),
{
    if disabled.len() == 0 {
        disabled
    } else {
        let rest = kept_after_remove(disabled.drop_last(), name);
        let e = disabled.last();
        if e != name && !crate::text::starts_with(e, "ForgeSource/layers/"@ + name) {
            rest.push(e)
        } else {
            rest
        }
    }
}

/// What [`run_dependency_remove`] makes of manifest `before` and lock
/// `lock_before` for dependency `name`: `after`, `lock_after` and the result `r`.
pub open spec fn remove_outcome(
    before: BitForgeConfig,
    lock_before: crate::lock::LockData,
    name: Seq<char>,
    after: BitForgeConfig,
    lock_after: crate::lock::LockData,
    r: Result<(), DependencyError>,
) -> bool {
    &&& (before.dependency.get_spec(name) is None ==> (r matches Err(
        DependencyError::NotTracked { name: n },
    ) && n@ == name && after == before && lock_after == lock_before))
    &&& (before.dependency.get_spec(name) is Some ==> {
        &&& r is Ok
        &&& after.wf()
        &&& after.dependency.get_spec(name) is None
        &&& forall|k: Seq<char>|
            k != name ==> after.dependency.get_spec(k) == before.dependency.get_spec(k)
        &&& crate::text::string_views(after.disabled@) == kept_after_remove(
            crate::text::string_views(before.disabled@),
            name,
        )
        &&& after.workspace == before.workspace
        &&& after.layer == before.layer
        &&& after.build == before.build
        &&& after.default == before.default
        &&& after.server == before.server
        &&& after.layers == before.layers
        &&& after.source_path == before.source_path
        &&& lock_after.version == lock_before.version
        &&& lock_after.layers.wf()
        &&& lock_after.layers.get_spec(name) is None
        &&& forall|k: Seq<char>|
            k != name ==> lock_after.layers.get_spec(k) == lock_before.layers.get_spec(k)
    })
}

/// Removes dependency `dependency_name` from the manifest, its disabled
/// entries, and the lock.
pub fn run_dependency_remove(
    config: &mut BitForgeConfig,
    lock: &mut crate::lock::LockData,
    dependency_name: &str,
) -> (r: Result<(), DependencyError>)
    requires
        old(config).wf(),
        old(lock).layers.wf(),
    ensures
        remove_outcome(*old(config), *old(lock), dependency_name@, *final(config), *final(lock), r),
{
    let name = String::from_str(dependency_name);
    let ghost before = *config;
    if config.dependency.get(&name).is_none() {
        return Err(DependencyError::NotTracked { name });
    }
    let _ = config.dependency.remove(&name);
    assert(config.wf()) by {
        assert forall|k: Seq<char>| #[trigger] config.dependency.get_spec(k) is Some implies config.dependency.get_spec(k)->0.wf() by {
            assert(config.dependency.get_spec(k) == before.dependency.get_spec(k));
        }
    }
    let mut prefix = String::from_str("ForgeSource/layers/");
    prefix.append(dependency_name);
    let prefix_chars = chars_of(prefix.as_str());
    let ghost all = crate::text::string_views(config.disabled@);
    let mut kept: Vec<String> = Vec::new();
    let mut i: usize = 0;
    while i < config.disabled.len()
        invariant
            i <= config.disabled@.len(),
            all == crate::text::string_views(config.disabled@),
            prefix_chars@ == "ForgeSource/layers/"@ + dependency_name@,
            crate::text::string_views(kept@) == kept_after_remove(all.take(i as int), dependency_name@),
        decreases config.disabled@.len() - i,
    {
        assert(all.take(i + 1).drop_last() =~= all.take(i as int));
        assert(all.take(i + 1).last() == config.disabled@[i as int]@);
        let entry = &config.disabled[i];
        let entry_chars = chars_of(entry.as_str());
        if !crate::text::eq_str(entry, dependency_name) && !crate::text::starts_with_exec(
            &entry_chars,
            &prefix_chars,
        ) {
            let ghost prev = crate::text::string_views(kept@);
            kept.push(entry.clone());
            assert(crate::text::string_views(kept@) =~= prev.push(config.disabled@[i as int]@));
        }
        i = i + 1;
    }
    assert(all.take(all.len() as int) =~= all);
    config.disabled = kept;
    let _ = lock.layers.remove(&name);
    Ok(())
}

// ---------------------------------------------------------------------------
// Duplicate BitBake collections
// ---------------------------------------------------------------------------

/// The index of the first line containing `pat`, or `-1`.
pub open spec fn first_containing(lines: Seq<Seq<char>>, pat: Seq<char>) -> int
    decreases lines.len(),
{
    if lines.len() == 0 {
        -1
    } else {
        let r = first_containing(lines.drop_last(), pat);
        if r >= 0 {
            r
        } else if crate::text::index_of(lines.last(), pat) >= 0 {
            lines.len() - 1
        } else {
            -1
        }
    }
}

/// The first word between the first pair of double quotes after
/// `BBFILE_COLLECTIONS` on a line.
pub open spec fn collection_of_line(line: Seq<char>) -> Option<Seq<char>> {
    match split_once(line, "BBFILE_COLLECTIONS"@) {
        Some((_, rest)) => {
            let start = crate::text::index_of(rest, "\""@);
            if start < 0 {
                None
            } else {
                let remainder = rest.skip(start + 1);
                let end = crate::text::index_of(remainder, "\""@);
                if end < 0 {
                    None
                } else {
                    crate::text::first_word(remainder.take(end))
                }
            }
        },
        None => None,
    }
}

/// The collection a `layer.conf` declares: read from the first line that
/// mentions `BBFILE_COLLECTIONS`.
pub open spec fn layer_conf_collection(text: Seq<char>) -> Option<Seq<char>> {
    let lines = split(text, "\n"@);
    let i = first_containing(lines, "BBFILE_COLLECTIONS"@);
    if i < 0 {
        None
    } else {
        collection_of_line(lines[i])
    }
}

fn collection_of_line_exec(line: &Vec<char>) -> (r: Option<String>)
    ensures
        crate::text::opt_view(r) == collection_of_line(line@),
{
    let pat = chars_of("BBFILE_COLLECTIONS");
    let quote = chars_of("\"");
    let rest = match split_once_exec(line, &pat) {
        Some((_, rest)) => rest,
        None => {
            return None;
        },
    };
    let start = match crate::text::find(&rest, &quote) {
        Some(i) => i,
        None => {
            return None;
        },
    };
    proof {
        crate::text::lemma_index_of(rest@, quote@);
        reveal_strlit("\"");
    }
    assert(quote@.len() == 1);
    assert(start + 1 <= rest@.len());
    let rest_len = rest.len();
    assert(start < rest_len);
    let remainder = crate::text::slice_chars(&rest, start + 1, rest_len);
    assert(remainder@ =~= rest@.skip(start + 1));
    let end = match crate::text::find(&remainder, &quote) {
        Some(i) => i,
        None => {
            return None;
        },
    };
    proof {
        crate::text::lemma_index_of(remainder@, quote@);
    }
    let value = crate::text::slice_chars(&remainder, 0, end);
    assert(value@ =~= remainder@.take(end as int));
    match crate::text::first_word_exec(&value) {
        Some(w) => Some(string_of(&w)),
        None => None,
    }
}

/// The collection declared by the text of a `layer.conf`, if any.
pub fn collection_from_layer_conf(text: &str) -> (r: Option<String>)
    ensures
        crate::text::opt_view(r) == layer_conf_collection(text@),
{
    let chars = chars_of(text);
    let newline = chars_of("\n");
    let pat = chars_of("BBFILE_COLLECTIONS");
    proof {
        reveal_strlit("\n");
    }
    let lines = split_exec(&chars, &newline);
    let ghost ls = views(lines@);
    let mut i: usize = 0;
    while i < lines.len()
        invariant
            i <= lines@.len(),
            ls == views(lines@),
            ls == split(text@, "\n"@),
            pat@ == "BBFILE_COLLECTIONS"@,
            first_containing(ls.take(i as int), pat@) == -1,
        decreases lines@.len() - i,
    {
        assert(ls.take(i + 1).drop_last() =~= ls.take(i as int));
        assert(ls.take(i + 1).last() == lines@[i as int]@);
        if crate::text::find(&lines[i], &pat).is_some() {
            proof {
                crate::text::lemma_index_of(lines@[i as int]@, pat@);
                lemma_first_containing_prefix(ls, pat@, i + 1);
            }
            assert(ls == split(text@, "\n"@));
            assert(first_containing(ls, "BBFILE_COLLECTIONS"@) == i);
            assert(ls[i as int] == lines@[i as int]@);
            return collection_of_line_exec(&lines[i]);
        }
        i = i + 1;
    }
    assert(ls.take(ls.len() as int) =~= ls);
    None
}

proof fn lemma_first_containing_prefix(ls: Seq<Seq<char>>, pat: Seq<char>, n: int)
    requires
        0 < n <= ls.len(),
        first_containing(ls.take(n - 1), pat) == -1,
        crate::text::index_of(ls[n - 1], pat) >= 0,
    ensures
        first_containing(ls, pat) == n - 1,
    decreases ls.len() - n,
{
    assert(ls.take(n).drop_last() =~= ls.take(n - 1));
    assert(first_containing(ls.take(n), pat) == n - 1);
    if n < ls.len() {
        lemma_first_containing_extend(ls, pat, n);
    } else {
        assert(ls.take(n) =~= ls);
    }
}

proof fn lemma_first_containing_extend(ls: Seq<Seq<char>>, pat: Seq<char>, n: int)
    requires
        0 < n <= ls.len(),
        first_containing(ls.take(n), pat) >= 0,
    ensures
        first_containing(ls, pat) == first_containing(ls.take(n), pat),
    decreases ls.len() - n,
{
    if n < ls.len() {
        assert(ls.take(n + 1).drop_last() =~= ls.take(n));
        lemma_first_containing_extend(ls, pat, n + 1);
    } else {
        assert(ls.take(n) =~= ls);
    }
}

/// An enabled layer: its path, whether it is linked, and its collection.
pub open spec fn enabled_views(v: Seq<(String, bool, Option<String>)>) -> Seq<
    (Seq<char>, bool, Option<Seq<char>>),
> {
    v.map_values(|e: (String, bool, Option<String>)| (e.0@, e.1, crate::text::opt_view(e.2)))
}

/// A new layer: its path and its collection.
pub open spec fn added_views(v: Seq<(String, Option<String>)>) -> Seq<(Seq<char>, Option<Seq<char>>)> {
    v.map_values(|e: (String, Option<String>)| (e.0@, crate::text::opt_view(e.1)))
}

pub open spec fn added_paths(v: Seq<(Seq<char>, Option<Seq<char>>)>) -> Seq<Seq<char>> {
    v.map_values(|e: (Seq<char>, Option<Seq<char>>)| e.0)
}

/// A conflict: the new layer's path, the collection, the path providing it.
pub open spec fn conflict_views(v: Seq<(String, String, String)>) -> Seq<(Seq<char>, Seq<char>, Seq<char>)> {
    v.map_values(|e: (String, String, String)| (e.0@, e.1@, e.2@))
}

/// Collection to providing path, from the linked layers that are not new;
/// the first layer to provide a collection is kept.
pub open spec fn provided_by(
    layers: Seq<(Seq<char>, bool, Option<Seq<char>>)>,
    new_paths: Seq<Seq<char>>,
) -> Map<Seq<char>, Seq<char>>
    decreases layers.len(),
{
    if layers.len() == 0 {
        Map::empty()
    } else {
        let m = provided_by(layers.drop_last(), new_paths);
        let (path, linked, collection) = layers.last();
        if !linked || new_paths.contains(path) {
            m
        } else {
            match collection {
                Some(c) => if m.contains_key(c) {
                    m
                } else {
                    m.insert(c, path)
                },
                None => m,
            }
        }
    }
}

/// The new layers taken in order: one whose collection is provided already
/// is a conflict, else it provides its collection from then on.
pub open spec fn conflicts_after(
    m: Map<Seq<char>, Seq<char>>,
    added: Seq<(Seq<char>, Option<Seq<char>>)>,
) -> (Map<Seq<char>, Seq<char>>, Seq<(Seq<char>, Seq<char>, Seq<char>)>)
    decreases added.len(),
{
    if added.len() == 0 {
        (m, Seq::empty())
    } else {
        let (m1, cs) = conflicts_after(m, added.drop_last());
        let (path, collection) = added.last();
        match collection {
            Some(c) => if m1.contains_key(c) {
                (m1, cs.push((path, c, m1[c])))
            } else {
                (m1.insert(c, path), cs)
            },
            None => (m1, cs),
        }
    }
}

/// `disabled` with each of `paths` added in turn, unless listed already.
pub open spec fn disable_all(disabled: Seq<Seq<char>>, paths: Seq<Seq<char>>) -> Seq<Seq<char>>
    decreases paths.len(),
{
    if paths.len() == 0 {
        disabled
    } else {
        with_disabled(disable_all(disabled, paths.drop_last()), paths.last())
    }
}

pub open spec fn conflict_paths(cs: Seq<(Seq<char>, Seq<char>, Seq<char>)>) -> Seq<Seq<char>> {
    cs.map_values(|c: (Seq<char>, Seq<char>, Seq<char>)| c.0)
}

/// The table as a map from collection to path.
pub open spec fn provider_map(t: crate::table::Table<String>) -> Map<Seq<char>, Seq<char>> {
    Map::new(|k: Seq<char>| t.get_spec(k) is Some, |k: Seq<char>| t.get_spec(k)->0@)
}

fn has_added_path(added: &Vec<(String, Option<String>)>, path: &String) -> (r: bool)
    ensures
        r == added_paths(added_views(added@)).contains(path@),
{
    let ghost ps = added_paths(added_views(added@));
    let mut i: usize = 0;
    while i < added.len()
        invariant
            i <= added@.len(),
            ps == added_paths(added_views(added@)),
            forall|j: int| 0 <= j < i ==> ps[j] != path@,
        decreases added@.len() - i,
    {
        assert(ps[i as int] == added@[i as int].0@);
        if added[i].0 == *path {
            return true;
        }
        i = i + 1;
    }
    false
}

/// Delinks the new layers whose BitBake collection another linked layer
/// provides already, so that BitBake does not stop on a duplicate
/// collection. `layers` are the enabled layers (path, linked, collection)
/// and `added` the new layers (path, collection); returns the conflicts
/// (new path, collection, providing path) in order.
pub fn guard_duplicate_collections(
    config: &mut BitForgeConfig,
    layers: &Vec<(String, bool, Option<String>)>,
    added: &Vec<(String, Option<String>)>,
) -> (r: Vec<(String, String, String)>)
    ensures
        ({
            let nv = added_views(added@);
            let provided = provided_by(enabled_views(layers@), added_paths(nv));
            let cs = conflicts_after(provided, nv).1;
            &&& conflict_views(r@) == cs
            &&& crate::text::string_views(final(config).disabled@) == disable_all(
                crate::text::string_views(old(config).disabled@),
                conflict_paths(cs),
            )
            &&& final(config).same_but_disabled(*old(config))
        }),
{
    let ghost ev = enabled_views(layers@);
    let ghost nv = added_views(added@);
    let ghost np = added_paths(nv);
    let mut provided: crate::table::Table<String> = crate::table::Table::new();
    assert(provider_map(provided) =~= Map::<Seq<char>, Seq<char>>::empty());
    let mut i: usize = 0;
    while i < layers.len()
        invariant
            i <= layers@.len(),
            ev == enabled_views(layers@),
            np == added_paths(added_views(added@)),
            provider_map(provided) == provided_by(ev.take(i as int), np),
        decreases layers@.len() - i,
    {
        assert(ev.take(i + 1).drop_last() =~= ev.take(i as int));
        let ghost e = ev.take(i + 1).last();
        assert(e == ev[i as int]);
        let entry = &layers[i];
        i = i + 1;
        if !entry.1 || has_added_path(added, &entry.0) {
            continue;
        }
        if let Some(collection) = &entry.2 {
            if provided.get(collection).is_none() {
                let ghost before = provider_map(provided);
                provided.insert(collection.clone(), entry.0.clone());
                assert(provider_map(provided) =~= before.insert(collection@, entry.0@));
            }
        }
    }
    assert(ev.take(ev.len() as int) =~= ev);
    let mut conflicts: Vec<(String, String, String)> = Vec::new();
    let mut k: usize = 0;
    while k < added.len()
        invariant
            k <= added@.len(),
            nv == added_views(added@),
            (provider_map(provided), conflict_views(conflicts@)) == conflicts_after(
                provided_by(ev, np),
                nv.take(k as int),
            ),
        decreases added@.len() - k,
    {
        assert(nv.take(k + 1).drop_last() =~= nv.take(k as int));
        assert(nv.take(k + 1).last() == nv[k as int]);
        let entry = &added[k];
        k = k + 1;
        if let Some(collection) = &entry.1 {
            match provided.get(collection) {
                Some(existing) => {
                    let ghost before = conflict_views(conflicts@);
                    conflicts.push((entry.0.clone(), collection.clone(), existing.clone()));
                    assert(conflict_views(conflicts@) =~= before.push(
                        (entry.0@, collection@, existing@),
                    ));
                },
                None => {
                    let ghost before = provider_map(provided);
                    provided.insert(collection.clone(), entry.0.clone());
                    assert(provider_map(provided) =~= before.insert(collection@, entry.0@));
                },
            }
        }
    }
    assert(nv.take(nv.len() as int) =~= nv);
    let ghost cs = conflict_views(conflicts@);
    let ghost d0 = crate::text::string_views(config.disabled@);
    let mut c: usize = 0;
    while c < conflicts.len()
        invariant
            c <= conflicts@.len(),
            cs == conflict_views(conflicts@),
            crate::text::string_views(config.disabled@) == disable_all(
                d0,
                conflict_paths(cs.take(c as int)),
            ),
            config.same_but_disabled(*old(config)),
        decreases conflicts@.len() - c,
    {
        assert(conflict_paths(cs.take(c + 1)).drop_last() =~= conflict_paths(cs.take(c as int)));
        assert(conflict_paths(cs.take(c + 1)).last() == conflicts@[c as int].0@);
        let path = &conflicts[c].0;
        if !crate::text::contains_str(&config.disabled, path.as_str()) {
            let ghost before = crate::text::string_views(config.disabled@);
            config.disabled.push(path.clone());
            assert(crate::text::string_views(config.disabled@) =~= before.push(path@));
        }
        c = c + 1;
    }
    assert(cs.take(cs.len() as int) =~= cs);
    conflicts
}

// ---------------------------------------------------------------------------
// Laws
// ---------------------------------------------------------------------------

/// A repository name is never given to a URL while another URL holds it.
pub proof fn law_allocated_name_is_free(cfg: BitForgeConfig, url: Seq<char>, name: Seq<char>)
    requires
        allocated(cfg, url, name),
    ensures
        free_or_same(cfg, url, name),
{
    let base = name_from_url(url);
    let aliases = alias_candidates_spec(url, base);
    if !free_or_same(cfg, url, base) {
        if exists|i: int| 0 <= i < aliases.len() && free_or_same(cfg, url, #[trigger] aliases[i]) {
            let i = choose|i: int|
                0 <= i < aliases.len() && name == aliases[i] && free_or_same(cfg, url, #[trigger] aliases[i])
                    && forall|j: int| 0 <= j < i ==> !free_or_same(cfg, url, #[trigger] aliases[j]);
        }
    }
}

/// Delinking a layer twice is delinking it once.
pub proof fn law_delink_idempotent(disabled: Seq<Seq<char>>, path: Seq<char>)
    ensures
        with_disabled(with_disabled(disabled, path), path) == with_disabled(disabled, path),
{
    if !disabled.contains(path) {
        assert(disabled.push(path)[disabled.len() as int] == path);
    }
}

/// After a dependency is removed, no disabled entry names it or lies under
/// its directory.
pub proof fn law_remove_forgets_disabled(disabled: Seq<Seq<char>>, name: Seq<char>)
    ensures
        forall|i: int|
            0 <= i < kept_after_remove(disabled, name).len() ==> {
                let e = #[trigger] kept_after_remove(disabled, name)[i];
                e != name && !crate::text::starts_with(e, "ForgeSource/layers/"@ + name)
            },
    decreases disabled.len(),
{
    if disabled.len() > 0 {
        law_remove_forgets_disabled(disabled.drop_last(), name);
        let rest = kept_after_remove(disabled.drop_last(), name);
        let k = kept_after_remove(disabled, name);
        assert forall|i: int| 0 <= i < k.len() implies {
            let e = #[trigger] k[i];
            e != name && !crate::text::starts_with(e, "ForgeSource/layers/"@ + name)
        } by {
            if i < rest.len() {
                assert(k[i] == rest[i]);
            }
        }
    }
}

/// Every new layer found in conflict ends up disabled.
pub proof fn law_conflicts_are_disabled(disabled: Seq<Seq<char>>, paths: Seq<Seq<char>>)
    ensures
        forall|i: int| 0 <= i < paths.len() ==> disable_all(disabled, paths).contains(#[trigger] paths[i]),
        forall|i: int|
            0 <= i < disabled.len() ==> disable_all(disabled, paths).contains(#[trigger] disabled[i]),
    decreases paths.len(),
{
    if paths.len() > 0 {
        law_conflicts_are_disabled(disabled, paths.drop_last());
        let before = disable_all(disabled, paths.drop_last());
        let after = disable_all(disabled, paths);
        assert forall|x: Seq<char>| before.contains(x) implies after.contains(x) by {
            if !before.contains(paths.last()) {
                let j = choose|j: int| 0 <= j < before.len() && before[j] == x;
                assert(after[j] == x);
            }
        }
        if !before.contains(paths.last()) {
            assert(after[before.len() as int] == paths.last());
        }
        assert forall|i: int| 0 <= i < paths.len() implies after.contains(#[trigger] paths[i]) by {
            if i < paths.len() - 1 {
                assert(paths.drop_last()[i] == paths[i]);
                assert(before.contains(paths[i]));
            }
        }
        assert forall|i: int| 0 <= i < disabled.len() implies after.contains(#[trigger] disabled[i]) by {
            assert(before.contains(disabled[i]));
        }
    }
}


/// Adding a dependency whose repository name the manifest did not use yet,
/// then removing that repository, leaves the manifest's dependencies and
/// every other section as they were (only the disabled list can lose
/// entries under the repository's directory).
pub proof fn law_remove_undoes_add(
    before: BitForgeConfig,
    spec: Seq<char>,
    added: BitForgeConfig,
    r: Result<(String, Vec<String>), DependencyError>,
    lock: crate::lock::LockData,
    after: BitForgeConfig,
    lock_after: crate::lock::LockData,
    r2: Result<(), DependencyError>,
)
    requires
        add_outcome(before, spec, added, r),
        r matches Ok((name, _)) && before.dependency.get_spec(name@) is None && remove_outcome(
            added,
            lock,
            name@,
            after,
            lock_after,
            r2,
        ),
    ensures
        r2 is Ok,
        forall|k: Seq<char>| #[trigger] after.dependency.get_spec(k) == before.dependency.get_spec(k),
        after.workspace == before.workspace,
        after.layer == before.layer,
        after.build == before.build,
        after.default == before.default,
        after.server == before.server,
        after.layers == before.layers,
        after.source_path == before.source_path,
{
    let name = r->Ok_0.0;
    assert(spec_url(spec).len() > 0 && spec_layers(spec).len() > 0);
    assert(added.dependency.get_spec(name@) is Some);
    assert forall|k: Seq<char>| #[trigger] after.dependency.get_spec(k) == before.dependency.get_spec(k) by {
        if k != name@ {
            assert(after.dependency.get_spec(k) == added.dependency.get_spec(k));
        }
    }
}

} // verus!
