//! `--init`, `--add-layer` and `--remove-layer`: naming, placing and
//! recording the project's own layers and the workspace skeleton.

use vstd::prelude::*;

use crate::config::{BitForgeConfig, LayerReference, LayerSection, CONFIG_FILE_NAME};
use crate::sorted_map::SortedMap;
use crate::text::{
    chars_of, is_ascii_alnum, is_ascii_alnum_exec, replace_all, replace_str, starts_with,
    starts_with_exec, string_of, string_views, trim_char, trim_char_exec,
};
use crate::timefmt::ascii_lower;
use crate::workspace::{join, path_join, BUILD_DIR, FORGE_SOURCE_DIR};

verus! {

pub const DEFAULT_YOCTO_RELEASE: &'static str = "scarthgap";

pub const DEFAULT_LAYER_PRIORITY: u32 = 6;

pub const LAYERS_DIRECTORY: &'static str = "layers";

pub const POKY_GIT_URL: &'static str = "https://git.yoctoproject.org/poky";

pub const POKY_DEPENDENCY_NAME: &'static str = "poky";

pub const POKY_DISTRO: &'static str = "poky";

pub const OE_CORE_GIT_URL: &'static str = "https://git.openembedded.org/openembedded-core";

pub const OE_CORE_DEPENDENCY_NAME: &'static str = "openembedded-core";

pub const BITBAKE_GIT_URL: &'static str = "https://git.openembedded.org/bitbake";

pub const BITBAKE_VERSION: &'static str = "2.8";

pub const BITBAKE_DIR: &'static str = "bitbake";

// ---------------------------------------------------------------------------
// Slugs and layer names
// ---------------------------------------------------------------------------

/// The lower-case form of a string (`str::to_lowercase`).
pub uninterp spec fn lowercase(s: Seq<char>) -> Seq<char>;

/// An ASCII upper-case letter.
pub open spec fn is_ascii_upper(c: char) -> bool {
    'A' <= c && c <= 'Z'
}

/// Every character is ASCII.
pub open spec fn all_ascii(s: Seq<char>) -> bool {
    forall|i: int| 0 <= i < s.len() ==> (#[trigger] s[i] as u32) < 128
}

/// `str::to_lowercase`: every character replaced by its Unicode lower-case
/// mapping. An ASCII string is mapped character by character (`A`-`Z` to
/// `a`-`z`, every other character kept), and no result holds an ASCII
/// upper-case letter.
#[verifier::external_body]
fn to_lowercase(value: &str) -> (r: String)
    ensures
        r@ == lowercase(value@),
        all_ascii(value@) ==> r@ == value@.map_values(|c: char| ascii_lower(c)),
        forall|i: int| 0 <= i < r@.len() ==> !is_ascii_upper(#[trigger] r@[i]),
{
    value.to_lowercase()
}

/// The slug before trimming: letters and digits are kept, and a run of
/// spaces, underscores and dashes becomes one dash.
pub open spec fn slug_fold(s: Seq<char>) -> Seq<char>
    decreases s.len(),
{
    if s.len() == 0 {
        Seq::empty()
    } else {
        let acc = slug_fold(s.drop_last());
        let c = s.last();
        if is_ascii_alnum(c) {
            acc.push(c)
        } else if (c == ' ' || c == '_' || c == '-') && !(acc.len() > 0 && acc.last() == '-') {
            acc.push('-')
        } else {
            acc
        }
    }
}

/// The slug of an already lower-cased name: the fold above without
/// surrounding dashes, or `project` when nothing is left.
pub open spec fn sanitized(lowered: Seq<char>) -> Seq<char> {
    let t = trim_char(slug_fold(lowered), '-');
    if t.len() == 0 {
        "project"@
    } else {
        t
    }
}

/// The slug of a lower-cased name.
pub fn sanitize_lowered(lowered: &str) -> (r: String)
    ensures
        r@ == sanitized(lowered@),
{
    let chars = chars_of(lowered);
    let mut slug: Vec<char> = Vec::new();
    let mut i: usize = 0;
    while i < chars.len()
        invariant
            i <= chars@.len(),
            chars@ == lowered@,
            slug@ == slug_fold(lowered@.take(i as int)),
        decreases chars@.len() - i,
    {
        let c = chars[i];
        assert(lowered@.take(i + 1).drop_last() =~= lowered@.take(i as int));
        if is_ascii_alnum_exec(c) {
            slug.push(c);
        } else if (c == ' ' || c == '_' || c == '-') && !(slug.len() > 0 && slug[slug.len() - 1]
            == '-') {
            slug.push('-');
        }
        i = i + 1;
    }
    assert(lowered@.take(lowered@.len() as int) =~= lowered@);
    let trimmed = trim_char_exec(&slug, '-');
    if trimmed.len() == 0 {
        String::from_str("project")
    } else {
        string_of(&trimmed)
    }
}

/// A character a slug may hold: a lower-case ASCII letter, a digit or `-`.
pub open spec fn lower_slug_char(c: char) -> bool {
    ('a' <= c && c <= 'z') || ('0' <= c && c <= '9') || c == '-'
}

/// A slug as [`sanitize_slug`] makes them: shaped as [`slug_shaped`] and
/// without upper-case letters.
pub open spec fn lower_slug(s: Seq<char>) -> bool {
    slug_shaped(s) && forall|i: int| 0 <= i < s.len() ==> lower_slug_char(#[trigger] s[i])
}

/// A name made into a slug: lower-cased, then as [`sanitize_lowered`]. The
/// slug holds only lower-case letters, digits and dashes, and a slug is its
/// own slug.
pub fn sanitize_slug(value: &str) -> (r: String)
    ensures
        r@ == sanitized(lowercase(value@)),
        lower_slug(r@),
        lower_slug(value@) ==> r@ == value@,
        (forall|i: int|
            0 <= i < lowercase(value@).len() ==> !is_ascii_alnum(#[trigger] lowercase(value@)[i]))
            ==> r@ == "project"@,
{
    let lowered = to_lowercase(value);
    proof {
        law_sanitized_slug_shape(lowered@);
        lemma_sanitized_lower(lowered@);
        if lower_slug(value@) {
            lemma_lower_slug_ascii(value@);
            assert(lowered@ =~= value@);
            lemma_slug_is_its_own_slug(value@);
        }
    }
    sanitize_lowered(lowered.as_str())
}

proof fn lemma_slug_fold_lower(s: Seq<char>)
    requires
        forall|i: int| 0 <= i < s.len() ==> !is_ascii_upper(#[trigger] s[i]),
    ensures
        forall|i: int| 0 <= i < slug_fold(s).len() ==> lower_slug_char(#[trigger] slug_fold(s)[i]),
    decreases s.len(),
{
    if s.len() > 0 {
        let t = s.drop_last();
        assert forall|i: int| 0 <= i < t.len() implies !is_ascii_upper(#[trigger] t[i]) by {
            assert(t[i] == s[i]);
        }
        lemma_slug_fold_lower(t);
        let acc = slug_fold(t);
        let r = slug_fold(s);
        assert(!is_ascii_upper(s[s.len() - 1]));
        assert forall|i: int| 0 <= i < r.len() implies lower_slug_char(#[trigger] r[i]) by {
            if i < acc.len() {
                assert(r[i] == acc[i]);
            }
        }
    }
}

/// The slug of a lower-cased text holds only lower-case letters, digits and
/// dashes.
proof fn lemma_sanitized_lower(lowered: Seq<char>)
    requires
        forall|i: int| 0 <= i < lowered.len() ==> !is_ascii_upper(#[trigger] lowered[i]),
    ensures
        forall|i: int| 0 <= i < sanitized(lowered).len() ==> lower_slug_char(#[trigger] sanitized(lowered)[i]),
{
    let f = slug_fold(lowered);
    lemma_slug_fold_lower(lowered);
    lemma_trim_start_keeps(f, '-');
    let k1 = choose|k: int|
        0 <= k <= f.len() && trim_crate_start(f, '-') == f.skip(k) && (trim_crate_start(f, '-').len()
            > 0 ==> trim_crate_start(f, '-')[0] != '-');
    let a = trim_crate_start(f, '-');
    lemma_trim_end_keeps(a, '-');
    let k2 = choose|k: int|
        0 <= k <= a.len() && crate::text::trim_end_char(a, '-') == a.take(k) && (
        crate::text::trim_end_char(a, '-').len() > 0 ==> crate::text::trim_end_char(a, '-').last()
            != '-');
    let t = crate::text::trim_end_char(a, '-');
    assert(t == trim_char(f, '-'));
    if t.len() == 0 {
        reveal_strlit("project");
    } else {
        assert forall|i: int| 0 <= i < t.len() implies lower_slug_char(#[trigger] t[i]) by {
            assert(t[i] == f[i + k1]);
        }
    }
}

proof fn lemma_lower_slug_ascii(s: Seq<char>)
    requires
        lower_slug(s),
    ensures
        all_ascii(s),
        s.map_values(|c: char| ascii_lower(c)) == s,
{
    assert forall|i: int| 0 <= i < s.len() implies (#[trigger] s[i] as u32) < 128 by {
        assert(lower_slug_char(s[i]));
    }
    assert(s.map_values(|c: char| ascii_lower(c)) =~= s) by {
        assert forall|i: int| 0 <= i < s.len() implies #[trigger] ascii_lower(s[i]) == s[i] by {
            assert(lower_slug_char(s[i]));
        }
    }
}

proof fn lemma_slug_fold_of_slug(s: Seq<char>)
    requires
        forall|i: int| 0 <= i < s.len() ==> lower_slug_char(#[trigger] s[i]),
        s.len() > 0 ==> s[0] != '-',
        forall|i: int| 0 <= i < s.len() - 1 ==> !(#[trigger] s[i] == '-' && s[i + 1] == '-'),
    ensures
        slug_fold(s) == s,
    decreases s.len(),
{
    if s.len() > 0 {
        let t = s.drop_last();
        assert forall|i: int| 0 <= i < t.len() implies lower_slug_char(#[trigger] t[i]) by {
            assert(t[i] == s[i]);
        }
        assert forall|i: int| 0 <= i < t.len() - 1 implies !(#[trigger] t[i] == '-' && t[i + 1]
            == '-') by {
            assert(t[i] == s[i] && t[i + 1] == s[i + 1]);
        }
        if t.len() > 0 {
            assert(t[0] == s[0]);
        }
        lemma_slug_fold_of_slug(t);
        let c = s.last();
        assert(lower_slug_char(c));
        if c == '-' {
            assert(s.len() >= 2);
            assert(!(s[s.len() - 2] == '-' && s[s.len() - 1] == '-'));
            assert(t.last() == s[s.len() - 2]);
        }
        assert(slug_fold(s) =~= s);
    }
}

proof fn lemma_trim_start_noop(s: Seq<char>, c: char)
    requires
        s.len() > 0,
        s[0] != c,
    ensures
        crate::text::trim_start_char(s, c) == s,
{
}

proof fn lemma_trim_end_noop(s: Seq<char>, c: char)
    requires
        s.len() > 0,
        s.last() != c,
    ensures
        crate::text::trim_end_char(s, c) == s,
{
}

/// A slug is its own slug.
proof fn lemma_slug_is_its_own_slug(s: Seq<char>)
    requires
        lower_slug(s),
    ensures
        sanitized(s) == s,
{
    lemma_slug_fold_of_slug(s);
    lemma_trim_start_noop(s, '-');
    lemma_trim_end_noop(s, '-');
}

/// Making a slug of a slug changes nothing, over lower-cased input: every
/// slug is a lower-case slug, and a lower-case slug is its own slug.
pub proof fn law_slug_of_slug(lowered: Seq<char>)
    requires
        forall|i: int| 0 <= i < lowered.len() ==> !is_ascii_upper(#[trigger] lowered[i]),
    ensures
        lower_slug(sanitized(lowered)),
        sanitized(sanitized(lowered)) == sanitized(lowered),
{
    law_sanitized_slug_shape(lowered);
    lemma_sanitized_lower(lowered);
    lemma_slug_is_its_own_slug(sanitized(lowered));
}

/// Non-empty; only ASCII letters, digits and dashes; no dash at either end
/// and never two dashes in a row.
pub open spec fn slug_shaped(s: Seq<char>) -> bool {
    &&& s.len() > 0
    &&& forall|i: int| 0 <= i < s.len() ==> is_ascii_alnum(#[trigger] s[i]) || s[i] == '-'
    &&& s[0] != '-'
    &&& s.last() != '-'
    &&& forall|i: int| 0 <= i < s.len() - 1 ==> !(#[trigger] s[i] == '-' && s[i + 1] == '-')
}

proof fn lemma_slug_fold_shape(s: Seq<char>)
    ensures
        forall|i: int|
            0 <= i < slug_fold(s).len() ==> is_ascii_alnum(#[trigger] slug_fold(s)[i])
                || slug_fold(s)[i] == '-',
        forall|i: int|
            0 <= i < slug_fold(s).len() - 1 ==> !(#[trigger] slug_fold(s)[i] == '-' && slug_fold(
                s,
            )[i + 1] == '-'),
    decreases s.len(),
{
    if s.len() > 0 {
        lemma_slug_fold_shape(s.drop_last());
        let acc = slug_fold(s.drop_last());
        let r = slug_fold(s);
        assert forall|i: int| 0 <= i < r.len() - 1 implies !(#[trigger] r[i] == '-' && r[i + 1]
            == '-') by {
            if i + 1 < acc.len() {
                assert(r[i] == acc[i] && r[i + 1] == acc[i + 1]);
            } else if r.len() == acc.len() + 1 {
                assert(r[i] == acc[i]);
                assert(acc.last() == acc[i]);
            }
        }
        assert forall|i: int| 0 <= i < r.len() implies is_ascii_alnum(#[trigger] r[i]) || r[i]
            == '-' by {
            if i < acc.len() {
                assert(r[i] == acc[i]);
            }
        }
    }
}

proof fn lemma_trim_start_keeps(s: Seq<char>, c: char)
    ensures
        exists|k: int|
            0 <= k <= s.len() && trim_crate_start(s, c) == s.skip(k) && (trim_crate_start(s, c).len()
                > 0 ==> trim_crate_start(s, c)[0] != c),
    decreases s.len(),
{
    if s.len() > 0 && s[0] == c {
        lemma_trim_start_keeps(s.drop_first(), c);
        let k = choose|k: int|
            0 <= k <= s.drop_first().len() && trim_crate_start(s.drop_first(), c)
                == s.drop_first().skip(k) && (trim_crate_start(s.drop_first(), c).len() > 0
                ==> trim_crate_start(s.drop_first(), c)[0] != c);
        assert(s.drop_first().skip(k) =~= s.skip(k + 1));
    } else {
        assert(s.skip(0) =~= s);
    }
}

spec fn trim_crate_start(s: Seq<char>, c: char) -> Seq<char> {
    crate::text::trim_start_char(s, c)
}

proof fn lemma_trim_end_keeps(s: Seq<char>, c: char)
    ensures
        exists|k: int|
            0 <= k <= s.len() && crate::text::trim_end_char(s, c) == s.take(k) && (
            crate::text::trim_end_char(s, c).len() > 0 ==> crate::text::trim_end_char(s, c).last()
                != c),
    decreases s.len(),
{
    if s.len() > 0 && s.last() == c {
        lemma_trim_end_keeps(s.drop_last(), c);
        let k = choose|k: int|
            0 <= k <= s.drop_last().len() && crate::text::trim_end_char(s.drop_last(), c)
                == s.drop_last().take(k) && (crate::text::trim_end_char(s.drop_last(), c).len()
                > 0 ==> crate::text::trim_end_char(s.drop_last(), c).last() != c);
        assert(s.drop_last().take(k) =~= s.take(k));
    } else {
        assert(s.take(s.len() as int) =~= s);
    }
}

/// A name without ASCII letters or digits folds to dashes only.
proof fn lemma_slug_fold_dashes(s: Seq<char>)
    requires
        forall|i: int| 0 <= i < s.len() ==> !is_ascii_alnum(#[trigger] s[i]),
    ensures
        forall|i: int| 0 <= i < slug_fold(s).len() ==> #[trigger] slug_fold(s)[i] == '-',
    decreases s.len(),
{
    if s.len() > 0 {
        let t = s.drop_last();
        assert forall|i: int| 0 <= i < t.len() implies !is_ascii_alnum(#[trigger] t[i]) by {
            assert(t[i] == s[i]);
        }
        lemma_slug_fold_dashes(t);
        assert(!is_ascii_alnum(s[s.len() - 1]));
        let acc = slug_fold(t);
        let r = slug_fold(s);
        assert forall|i: int| 0 <= i < r.len() implies #[trigger] r[i] == '-' by {
            if i < acc.len() {
                assert(r[i] == acc[i]);
            }
        }
    }
}

/// Every slug is non-empty and made of ASCII letters, digits and dashes,
/// with no dash at either end and no two dashes in a row; a name without
/// ASCII letters or digits becomes `project`.
pub proof fn law_sanitized_slug_shape(lowered: Seq<char>)
    ensures
        slug_shaped(sanitized(lowered)),
        sanitized(lowered).len() > 0,
        forall|i: int|
            0 <= i < sanitized(lowered).len() ==> is_ascii_alnum(#[trigger] sanitized(lowered)[i])
                || sanitized(lowered)[i] == '-',
        sanitized(lowered)[0] != '-',
        sanitized(lowered).last() != '-',
        forall|i: int|
            0 <= i < sanitized(lowered).len() - 1 ==> !(#[trigger] sanitized(lowered)[i] == '-'
                && sanitized(lowered)[i + 1] == '-'),
        (forall|i: int| 0 <= i < lowered.len() ==> !is_ascii_alnum(#[trigger] lowered[i]))
            ==> sanitized(lowered) == "project"@,
{
    if forall|i: int| 0 <= i < lowered.len() ==> !is_ascii_alnum(#[trigger] lowered[i]) {
        lemma_slug_fold_dashes(lowered);
        let f = slug_fold(lowered);
        lemma_trim_start_keeps(f, '-');
        let k0 = choose|k: int|
            0 <= k <= f.len() && trim_crate_start(f, '-') == f.skip(k) && (trim_crate_start(
                f,
                '-',
            ).len() > 0 ==> trim_crate_start(f, '-')[0] != '-');
        let a0 = trim_crate_start(f, '-');
        if a0.len() > 0 {
            assert(a0[0] == f[k0]);
        }
        assert(a0.len() == 0);
        lemma_trim_end_keeps(a0, '-');
        assert(trim_char(f, '-').len() == 0);
    }

    let f = slug_fold(lowered);
    lemma_slug_fold_shape(lowered);
    lemma_trim_start_keeps(f, '-');
    let k1 = choose|k: int|
        0 <= k <= f.len() && trim_crate_start(f, '-') == f.skip(k) && (trim_crate_start(f, '-').len()
            > 0 ==> trim_crate_start(f, '-')[0] != '-');
    let a = trim_crate_start(f, '-');
    lemma_trim_end_keeps(a, '-');
    let k2 = choose|k: int|
        0 <= k <= a.len() && crate::text::trim_end_char(a, '-') == a.take(k) && (
        crate::text::trim_end_char(a, '-').len() > 0 ==> crate::text::trim_end_char(a, '-').last()
            != '-');
    let t = crate::text::trim_end_char(a, '-');
    assert(t == trim_char(f, '-'));
    if t.len() == 0 {
        reveal_strlit("project");
        assert(is_ascii_alnum('p') && is_ascii_alnum('r') && is_ascii_alnum('o') && is_ascii_alnum(
            'j',
        ) && is_ascii_alnum('e') && is_ascii_alnum('c') && is_ascii_alnum('t'));
    } else {
        assert forall|i: int| 0 <= i < t.len() implies is_ascii_alnum(#[trigger] t[i]) || t[i]
            == '-' by {
            assert(t[i] == f[i + k1]);
        }
        assert forall|i: int| 0 <= i < t.len() - 1 implies !(#[trigger] t[i] == '-' && t[i + 1]
            == '-') by {
            assert(t[i] == f[i + k1]);
            assert(t[i + 1] == f[i + 1 + k1]);
        }
        if a.len() > 0 {
            assert(t[0] == a[0]);
        }
    }
}

/// The layer name for a project slug: `meta-` in front unless it is there.
pub open spec fn layer_name_spec(slug: Seq<char>) -> Seq<char> {
    if starts_with(slug, "meta-"@) {
        slug
    } else {
        "meta-"@ + slug
    }
}

pub fn derive_layer_name(project_slug: &str) -> (r: String)
    ensures
        r@ == layer_name_spec(project_slug@),
{
    let chars = chars_of(project_slug);
    let prefix = chars_of("meta-");
    if starts_with_exec(&chars, &prefix) {
        String::from_str(project_slug)
    } else {
        let mut s = String::from_str("meta-");
        s.append(project_slug);
        s
    }
}

/// Naming a layer twice gives the same name.
pub proof fn law_layer_name_idempotent(slug: Seq<char>)
    ensures
        layer_name_spec(layer_name_spec(slug)) == layer_name_spec(slug),
{
    let n = layer_name_spec(slug);
    let p = "meta-"@;
    if !starts_with(slug, p) {
        assert((p + slug).take(p.len() as int) =~= p);
    }
}

/// The slug of a project directory: the slug of its name, or `project`
/// when the directory has no name.
pub fn derive_project_slug(directory_name: Option<&str>) -> (r: String)
    ensures
        r@ == sanitized(
            lowercase(
                match directory_name {
                    Some(n) => n@,
                    None => "project"@,
                },
            ),
        ),
{
    match directory_name {
        Some(name) => sanitize_slug(name),
        None => sanitize_slug("project"),
    }
}

// ---------------------------------------------------------------------------
// Layers of the project
// ---------------------------------------------------------------------------

/// Why a layer command is refused.
#[derive(Debug)]
pub enum LayerError {
    /// A layer of the project has that name.
    Exists { name: String },
    /// The layer's directory exists.
    DirectoryExists { path: String },
    /// No layer of the project has that name.
    NotWorkspaceLayer { name: String },
}

impl LayerError {
    pub open spec fn message_spec(&self) -> Seq<char> {
        match self {
            LayerError::Exists { name } => "layer '"@ + name@ + "' already exists"@,
            LayerError::DirectoryExists { path } => path@ + " already exists"@,
            LayerError::NotWorkspaceLayer { name } => "layer '"@ + name@
                + "' is not a workspace layer"@,
        }
    }

    pub fn message(&self) -> (r: String)
        ensures
            r@ == self.message_spec(),
    {
        match self {
            LayerError::Exists { name } => {
                let mut s = String::from_str("layer '");
                s.append(name.as_str());
                s.append("' already exists");
                s
            },
            LayerError::DirectoryExists { path } => {
                let mut s = path.clone();
                s.append(" already exists");
                s
            },
            LayerError::NotWorkspaceLayer { name } => {
                let mut s = String::from_str("layer '");
                s.append(name.as_str());
                s.append("' is not a workspace layer");
                s
            },
        }
    }
}

/// `layers/NAME`.
pub open spec fn layer_path_spec(name: Seq<char>) -> Seq<char> {
    LAYERS_DIRECTORY@ + "/"@ + name
}

/// The manifest entry of a new layer of the project.
pub fn layer_reference(layer_name: &str) -> (r: LayerReference)
    ensures
        r.name@ == layer_name@,
        r.path@ == layer_path_spec(layer_name@),
        r.priority == DEFAULT_LAYER_PRIORITY,
{
    let mut path = String::from_str(LAYERS_DIRECTORY);
    path.append("/");
    path.append(layer_name);
    LayerReference { name: String::from_str(layer_name), path, priority: DEFAULT_LAYER_PRIORITY }
}

/// The directory of the project layer `name` under `root`.
pub fn layer_directory(root: &str, name: &str) -> (r: String)
    ensures
        r@ == path_join(path_join(root@, LAYERS_DIRECTORY@), name@),
{
    let layers = join(root, LAYERS_DIRECTORY);
    join(layers.as_str(), name)
}

/// The manifest of a new layer of the project: its `[layer]` section names
/// it, gives it the default priority and declares it compatible with
/// `compatible_release`; it is saved as `BitForge.toml` in the layer's
/// directory.
pub fn own_layer_manifest(layer_directory: &str, layer_name: &str, compatible_release: &str) -> (r:
    BitForgeConfig)
    ensures
        r.layer matches Some(l) && l.name@ == layer_name@ && l.priority == DEFAULT_LAYER_PRIORITY
            && l.compatible@.len() == 1 && l.compatible@[0]@ == compatible_release@,
        r.source_path@ == path_join(layer_directory@, CONFIG_FILE_NAME@),
        r.workspace is None,
        r.build is None,
        r.default is None,
        r.server is None,
        r.layers@.len() == 0,
        r.dependency.wf(),
        r.dependency.entries@.len() == 0,
        r.disabled@.len() == 0,
{
    let mut compatible: Vec<String> = Vec::new();
    compatible.push(String::from_str(compatible_release));
    BitForgeConfig {
        workspace: None,
        layer: Some(
            LayerSection {
                name: String::from_str(layer_name),
                priority: DEFAULT_LAYER_PRIORITY,
                compatible,
            },
        ),
        build: None,
        default: None,
        server: None,
        layers: Vec::new(),
        dependency: SortedMap::new(),
        disabled: Vec::new(),
        source_path: join(layer_directory, CONFIG_FILE_NAME),
    }
}

/// Where a new layer keeps its placeholder recipe.
pub fn placeholder_recipe_path(layer_directory: &str) -> (r: String)
    ensures
        r@ == path_join(
            path_join(path_join(layer_directory@, "recipes-example"@), "bitforge-example"@),
            "bitforge-example_0.1.bb"@,
        ),
{
    let a = join(layer_directory, "recipes-example");
    let b = join(a.as_str(), "bitforge-example");
    join(b.as_str(), "bitforge-example_0.1.bb")
}

/// The placeholder recipe that keeps a new layer non-empty.
pub open spec fn placeholder_recipe_spec() -> Seq<char> {
    "SUMMARY = \"BitForge starter placeholder recipe\"\n"@
        + "DESCRIPTION = \"Keeps this layer non-empty so BitBake does not warn about an unused BBFILE_PATTERN. Replace it with your own recipes under recipes-*/.\"\n"@
        + "LICENSE = \"CLOSED\"\n"@ + "\n"@ + "do_compile[noexec] = \"1\"\n"@
        + "do_install[noexec] = \"1\"\n"@
}

pub fn placeholder_recipe() -> (r: String)
    ensures
        r@ == placeholder_recipe_spec(),
{
    let mut s = String::from_str("SUMMARY = \"BitForge starter placeholder recipe\"\n");
    s.append(
        "DESCRIPTION = \"Keeps this layer non-empty so BitBake does not warn about an unused BBFILE_PATTERN. Replace it with your own recipes under recipes-*/.\"\n",
    );
    s.append("LICENSE = \"CLOSED\"\n");
    s.append("\n");
    s.append("do_compile[noexec] = \"1\"\n");
    s.append("do_install[noexec] = \"1\"\n");
    s
}

/// Some layer of the manifest has the name `name`.
pub open spec fn has_layer(layers: Seq<LayerReference>, name: Seq<char>) -> bool {
    exists|i: int| 0 <= i < layers.len() && (#[trigger] layers[i]).name@ == name
}

/// Records a new layer of the project named after `raw_name`.
/// `directory_exists` tells whether its directory is on disk already.
/// Returns the layer's name.
pub fn run_add_layer(
    config: &mut BitForgeConfig,
    root: &str,
    raw_name: &str,
    directory_exists: bool,
) -> (r: Result<String, LayerError>)
    ensures
        ({
            let name = layer_name_spec(sanitized(lowercase(raw_name@)));
            if has_layer(old(config).layers@, name) {
                &&& r matches Err(LayerError::Exists { name: n }) && n@ == name
                &&& *final(config) == *old(config)
            } else if directory_exists {
                &&& r matches Err(LayerError::DirectoryExists { path }) && path@ == path_join(
                    path_join(root@, LAYERS_DIRECTORY@),
                    name,
                )
                &&& *final(config) == *old(config)
            } else {
                &&& r matches Ok(n) && n@ == name
                &&& final(config).layers@.len() == old(config).layers@.len() + 1
                &&& final(config).layers@.drop_last() == old(config).layers@
                &&& final(config).layers@.last().name@ == name
                &&& final(config).layers@.last().path@ == layer_path_spec(name)
                &&& final(config).layers@.last().priority == DEFAULT_LAYER_PRIORITY
                &&& final(config).same_but_layers(*old(config))
            }
        }),
{
    let slug = sanitize_slug(raw_name);
    let layer_name = derive_layer_name(slug.as_str());
    let mut i: usize = 0;
    while i < config.layers.len()
        invariant
            i <= config.layers@.len(),
            *config == *old(config),
            layer_name@ == layer_name_spec(sanitized(lowercase(raw_name@))),
            forall|j: int| 0 <= j < i ==> (#[trigger] config.layers@[j]).name@ != layer_name@,
        decreases config.layers@.len() - i,
    {
        if config.layers[i].name == layer_name {
            assert(config.layers@[i as int].name@ == layer_name@);
            return Err(LayerError::Exists { name: layer_name });
        }
        i = i + 1;
    }
    if directory_exists {
        return Err(LayerError::DirectoryExists { path: layer_directory(root, layer_name.as_str()) });
    }
    let reference = layer_reference(layer_name.as_str());
    let ghost before = config.layers@;
    config.layers.push(reference);
    assert(config.layers@.drop_last() =~= before);
    Ok(layer_name)
}

/// The first layer named `raw` or named after it, or `-1`.
pub open spec fn removable_index(layers: Seq<LayerReference>, raw: Seq<char>, candidate: Seq<char>) -> int
    decreases layers.len(),
{
    if layers.len() == 0 {
        -1
    } else {
        let r = removable_index(layers.drop_last(), raw, candidate);
        if r >= 0 {
            r
        } else if layers.last().name@ == raw || layers.last().name@ == candidate {
            layers.len() - 1
        } else {
            -1
        }
    }
}

/// Takes the layer `raw_name` (or the layer named after it) out of the
/// manifest; returns it.
pub fn run_remove_layer(config: &mut BitForgeConfig, raw_name: &str) -> (r: Result<
    LayerReference,
    LayerError,
>)
    ensures
        ({
            let candidate = layer_name_spec(sanitized(lowercase(raw_name@)));
            let i = removable_index(old(config).layers@, raw_name@, candidate);
            if i < 0 {
                &&& r matches Err(LayerError::NotWorkspaceLayer { name }) && name@ == raw_name@
                &&& *final(config) == *old(config)
            } else {
                &&& r matches Ok(removed) && removed == old(config).layers@[i]
                &&& final(config).layers@ == old(config).layers@.remove(i)
                &&& final(config).same_but_layers(*old(config))
            }
        }),
{
    let slug = sanitize_slug(raw_name);
    let candidate = derive_layer_name(slug.as_str());
    let raw = String::from_str(raw_name);
    let mut i: usize = 0;
    while i < config.layers.len()
        invariant
            i <= config.layers@.len(),
            *config == *old(config),
            raw@ == raw_name@,
            candidate@ == layer_name_spec(sanitized(lowercase(raw_name@))),
            removable_index(config.layers@.take(i as int), raw@, candidate@) == -1,
        decreases config.layers@.len() - i,
    {
        assert(config.layers@.take(i + 1).drop_last() =~= config.layers@.take(i as int));
        assert(config.layers@.take(i + 1).last() == config.layers@[i as int]);
        if config.layers[i].name == raw || config.layers[i].name == candidate {
            assert(removable_index(config.layers@.take(i + 1), raw@, candidate@) == i);
            proof {
                lemma_removable_prefix(config.layers@, raw@, candidate@, i + 1);
            }
            let removed = config.layers.remove(i);
            return Ok(removed);
        }
        i = i + 1;
    }
    assert(config.layers@.take(config.layers@.len() as int) =~= config.layers@);
    Err(LayerError::NotWorkspaceLayer { name: raw })
}

proof fn lemma_removable_prefix(
    layers: Seq<LayerReference>,
    raw: Seq<char>,
    candidate: Seq<char>,
    n: int,
)
    requires
        0 < n <= layers.len(),
        removable_index(layers.take(n), raw, candidate) >= 0,
    ensures
        removable_index(layers, raw, candidate) == removable_index(layers.take(n), raw, candidate),
    decreases layers.len() - n,
{
    if n < layers.len() {
        assert(layers.take(n + 1).drop_last() =~= layers.take(n));
        lemma_removable_prefix(layers, raw, candidate, n + 1);
    } else {
        assert(layers.take(n) =~= layers);
    }
}

// ---------------------------------------------------------------------------
// Initialising a workspace
// ---------------------------------------------------------------------------

/// Why `--init` is refused.
#[derive(Debug)]
pub enum InitError {
    /// `--poky` was given an empty version.
    PokyVersionMissing,
    /// The target directory has entries and `--force` was not given.
    NotEmpty { directory: String },
    /// The target directory has a manifest already.
    ConfigExists { path: String },
    /// The base repository has no branch for the release.
    ReleaseNotFound { release: String, url: String },
}

impl InitError {
    pub open spec fn message_spec(&self) -> Seq<char> {
        match self {
            InitError::PokyVersionMissing => "`--poky` requires a version, e.g. --poky scarthgap"@,
            InitError::NotEmpty { directory } => directory@
                + " is not empty; use --force to initialize anyway"@,
            InitError::ConfigExists { path } => path@ + " already exists"@,
            InitError::ReleaseNotFound { release, url } => "release '"@ + release@
                + "' not found at "@ + url@,
        }
    }

    pub fn message(&self) -> (r: String)
        ensures
            r@ == self.message_spec(),
    {
        match self {
            InitError::PokyVersionMissing => String::from_str(
                "`--poky` requires a version, e.g. --poky scarthgap",
            ),
            InitError::NotEmpty { directory } => {
                let mut s = directory.clone();
                s.append(" is not empty; use --force to initialize anyway");
                s
            },
            InitError::ConfigExists { path } => {
                let mut s = path.clone();
                s.append(" already exists");
                s
            },
            InitError::ReleaseNotFound { release, url } => {
                let mut s = String::from_str("release '");
                s.append(release.as_str());
                s.append("' not found at ");
                s.append(url.as_str());
                s
            },
        }
    }
}

/// The directory `--init` works in: `base_directory/dir_name`, or
/// `base_directory` itself. An empty `--poky` version is refused first.
pub fn init_target(base_directory: &str, dir_name: Option<&str>, poky_version: Option<&str>) -> (r:
    Result<String, InitError>)
    ensures
        (poky_version matches Some(v) && v@.len() == 0) ==> r matches Err(
            InitError::PokyVersionMissing,
        ),
        !(poky_version matches Some(v) && v@.len() == 0) ==> (r matches Ok(t) && t@ == match dir_name {
            Some(n) => path_join(base_directory@, n@),
            None => base_directory@,
        }),
{
    if let Some(version) = poky_version {
        if version.unicode_len() == 0 {
            return Err(InitError::PokyVersionMissing);
        }
    }
    match dir_name {
        Some(name) => Ok(join(base_directory, name)),
        None => Ok(String::from_str(base_directory)),
    }
}

/// Whether to go on in a directory that may have entries: yes when it is
/// empty, yes with a warning (`Ok(true)`) when `force` is given, else no.
pub fn check_target_empty(target: &str, has_entries: bool, force: bool) -> (r: Result<
    bool,
    InitError,
>)
    ensures
        !has_entries ==> r == Ok::<bool, InitError>(false),
        has_entries && force ==> r == Ok::<bool, InitError>(true),
        has_entries && !force ==> (r matches Err(InitError::NotEmpty { directory }) && directory@
            == target@),
{
    if has_entries {
        if force {
            Ok(true)
        } else {
            Err(InitError::NotEmpty { directory: String::from_str(target) })
        }
    } else {
        Ok(false)
    }
}

/// What `--init` generates inside its target directory.
pub open spec fn generated_names() -> Seq<Seq<char>> {
    seq![
        "BitForge.toml"@,
        "BitForge.lock"@,
        ".gitignore"@,
        "conf"@,
        "build"@,
        "ForgeSource"@,
        "layers"@,
    ]
}

/// What a failed `--init` removes: the target directory itself when `--init`
/// created it, else each generated entry inside it.
pub fn cleanup_targets(target: &str, created_target: bool) -> (r: Vec<String>)
    ensures
        created_target ==> string_views(r@) == seq![target@],
        !created_target ==> string_views(r@) == generated_names().map_values(
            |n: Seq<char>| path_join(target@, n),
        ),
{
    let mut out: Vec<String> = Vec::new();
    if created_target {
        out.push(String::from_str(target));
        assert(string_views(out@) =~= seq![target@]);
        return out;
    }
    out.push(join(target, "BitForge.toml"));
    out.push(join(target, "BitForge.lock"));
    out.push(join(target, ".gitignore"));
    out.push(join(target, "conf"));
    out.push(join(target, "build"));
    out.push(join(target, "ForgeSource"));
    out.push(join(target, "layers"));
    assert(string_views(out@) =~= generated_names().map_values(
        |n: Seq<char>| path_join(target@, n),
    ));
    out
}

/// What a new workspace is based on.
#[derive(Debug)]
pub struct InitFlavor {
    pub base_name: String,
    pub base_git_url: String,
    pub release: String,
    pub is_poky: bool,
    pub flavor: String,
}

/// Poky at the given release with `--poky`, else OpenEmbedded-core at the
/// default release.
pub fn init_flavor(poky_version: Option<&str>) -> (r: InitFlavor)
    ensures
        match poky_version {
            Some(v) => {
                &&& r.base_name@ == POKY_DEPENDENCY_NAME@
                &&& r.base_git_url@ == POKY_GIT_URL@
                &&& r.release@ == v@
                &&& r.is_poky
                &&& r.flavor@ == "poky"@
            },
            None => {
                &&& r.base_name@ == OE_CORE_DEPENDENCY_NAME@
                &&& r.base_git_url@ == OE_CORE_GIT_URL@
                &&& r.release@ == DEFAULT_YOCTO_RELEASE@
                &&& !r.is_poky
                &&& r.flavor@ == "openembedded-core"@
            },
        },
{
    match poky_version {
        Some(version) => InitFlavor {
            base_name: String::from_str(POKY_DEPENDENCY_NAME),
            base_git_url: String::from_str(POKY_GIT_URL),
            release: String::from_str(version),
            is_poky: true,
            flavor: String::from_str("poky"),
        },
        None => InitFlavor {
            base_name: String::from_str(OE_CORE_DEPENDENCY_NAME),
            base_git_url: String::from_str(OE_CORE_GIT_URL),
            release: String::from_str(DEFAULT_YOCTO_RELEASE),
            is_poky: false,
            flavor: String::from_str("openembedded-core"),
        },
    }
}

/// The manifest template with its placeholders filled in, in this order:
/// project name, release, layer name, layer path.
pub open spec fn rendered_spec(
    template: Seq<char>,
    project: Seq<char>,
    release: Seq<char>,
    layer_name: Seq<char>,
    layer_path: Seq<char>,
) -> Seq<char> {
    replace_all(
        replace_all(
            replace_all(replace_all(template, "{{PROJECT_NAME}}"@, project), "{{RELEASE}}"@, release),
            "{{LAYER_NAME}}"@,
            layer_name,
        ),
        "{{LAYER_PATH}}"@,
        layer_path,
    )
}

pub fn render_template(
    template: &str,
    project: &str,
    release: &str,
    layer_name: &str,
    layer_path: &str,
) -> (r: String)
    ensures
        r@ == rendered_spec(template@, project@, release@, layer_name@, layer_path@),
{
    proof {
        reveal_strlit("{{PROJECT_NAME}}");
        reveal_strlit("{{RELEASE}}");
        reveal_strlit("{{LAYER_NAME}}");
        reveal_strlit("{{LAYER_PATH}}");
    }
    let a = replace_str(template, "{{PROJECT_NAME}}", project);
    let b = replace_str(a.as_str(), "{{RELEASE}}", release);
    let c = replace_str(b.as_str(), "{{LAYER_NAME}}", layer_name);
    replace_str(c.as_str(), "{{LAYER_PATH}}", layer_path)
}

/// The `.gitignore` a new workspace gets.
pub fn gitignore_contents() -> (r: String)
    ensures
        r@ == FORGE_SOURCE_DIR@ + "/\n"@ + BUILD_DIR@ + "/\n"@,
{
    let mut s = String::from_str(FORGE_SOURCE_DIR);
    s.append("/\n");
    s.append(BUILD_DIR);
    s.append("/\n");
    s
}

// ---------------------------------------------------------------------------
// BitBake
// ---------------------------------------------------------------------------

/// Where BitBake is checked out and at which version.
#[derive(Debug)]
pub struct BitbakeCheckout {
    pub destination: String,
    pub git_dir: String,
    pub version: String,
    pub url: String,
}

/// The BitBake checkout of the project at `root`: `ForgeSource/bitbake`, at
/// `version`, or at the default version when `version` is empty.
pub fn ensure_bitbake(root: &str, version: &str) -> (r: BitbakeCheckout)
    ensures
        r.destination@ == path_join(path_join(root@, FORGE_SOURCE_DIR@), BITBAKE_DIR@),
        r.git_dir@ == path_join(r.destination@, ".git"@),
        r.version@ == if version@.len() == 0 {
            BITBAKE_VERSION@
        } else {
            version@
        },
        r.url@ == BITBAKE_GIT_URL@,
{
    let source = join(root, FORGE_SOURCE_DIR);
    let destination = join(source.as_str(), BITBAKE_DIR);
    let git_dir = join(destination.as_str(), ".git");
    let version = if version.unicode_len() == 0 {
        String::from_str(BITBAKE_VERSION)
    } else {
        String::from_str(version)
    };
    BitbakeCheckout { destination, git_dir, version, url: String::from_str(BITBAKE_GIT_URL) }
}

/// The BitBake version of the manifest's workspace, unless absent or empty.
pub fn bitbake_version_for(config: &BitForgeConfig) -> (r: String)
    ensures
        r@ == match config.workspace {
            Some(w) => if w.bitbake@.len() > 0 {
                w.bitbake@
            } else {
                BITBAKE_VERSION@
            },
            None => BITBAKE_VERSION@,
        },
{
    match &config.workspace {
        Some(w) => if w.bitbake.as_str().unicode_len() > 0 {
            w.bitbake.clone()
        } else {
            String::from_str(BITBAKE_VERSION)
        },
        None => String::from_str(BITBAKE_VERSION),
    }
}

} // verus!
