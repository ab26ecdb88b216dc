//! The project manifest `BitForge.toml`.

use vstd::prelude::*;

use crate::sorted_map::SortedMap;
use crate::text::{
    chars_of, copy_opt_string, is_ascii_alnum, is_ascii_alnum_exec, opt_view, push_char, trim_char,
    trim_char_exec, string_of,
};
use crate::workspace::{join, path_join};

verus! {

pub const CONFIG_FILE_NAME: &'static str = "BitForge.toml";

/// `[workspace]`.
#[derive(Debug)]
pub struct WorkspaceSection {
    pub name: String,
    pub bitbake: String,
    pub yocto_release: Option<String>,
}

/// `[default]`.
#[derive(Debug)]
pub struct DefaultSection {
    pub image: String,
}

/// `[layer]`, in the manifest of a layer.
#[derive(Debug)]
pub struct LayerSection {
    pub name: String,
    pub priority: u32,
    pub compatible: Vec<String>,
}

/// `[build]`.
#[derive(Debug)]
pub struct BuildSection {
    pub yocto_release: String,
}

/// `[server]`.
#[derive(Debug)]
pub struct ServerSection {
    pub host: String,
    pub port: u16,
    pub shutdown_grace_secs: u64,
    pub activity_timeout: u64,
    pub http1_keep_alive: bool,
    pub http2_keep_alive_secs: Option<u64>,
}

/// `[[layers]]`: a layer of the project itself.
#[derive(Debug)]
pub struct LayerReference {
    pub name: String,
    pub path: String,
    pub priority: u32,
}

/// `[dependency.<repository>.<layer>]`: a layer taken from a git repository.
#[derive(Debug)]
pub struct LayerDependency {
    pub giturl: String,
    pub branch: Option<String>,
    pub tag: Option<String>,
    pub commit: Option<String>,
    pub path: Option<String>,
}

/// A layer dependency over character sequences.
pub struct DepModel {
    pub giturl: Seq<char>,
    pub branch: Option<Seq<char>>,
    pub tag: Option<Seq<char>>,
    pub commit: Option<Seq<char>>,
    pub path: Option<Seq<char>>,
}

impl View for LayerDependency {
    type V = DepModel;

    open spec fn view(&self) -> DepModel {
        DepModel {
            giturl: self.giturl@,
            branch: opt_view(self.branch),
            tag: opt_view(self.tag),
            commit: opt_view(self.commit),
            path: opt_view(self.path),
        }
    }
}

/// The layers of one repository as a map from layer key to dependency.
pub open spec fn dep_map(m: SortedMap<LayerDependency>) -> Map<Seq<char>, DepModel> {
    Map::new(|k: Seq<char>| m.get_spec(k) is Some, |k: Seq<char>| m.get_spec(k)->0@)
}

/// The project manifest.
#[derive(Debug)]
pub struct BitForgeConfig {
    pub workspace: Option<WorkspaceSection>,
    pub layer: Option<LayerSection>,
    pub build: Option<BuildSection>,
    pub default: Option<DefaultSection>,
    pub server: Option<ServerSection>,
    pub layers: Vec<LayerReference>,
    pub dependency: SortedMap<SortedMap<LayerDependency>>,
    pub disabled: Vec<String>,
    pub source_path: String,
}

/// The BitBake version used when the manifest names none.
pub fn default_bitbake_version() -> (r: String)
    ensures
        r@ == "2.8"@,
{
    String::from_str("2.8")
}

/// The address the web UI listens on by default.
pub fn default_server_host() -> (r: String)
    ensures
        r@ == "0.0.0.0"@,
{
    String::from_str("0.0.0.0")
}

/// Seconds a running build gets to stop when BitForge exits.
pub fn default_shutdown_grace_secs() -> (r: u64)
    ensures
        r == 20,
{
    20
}

/// Minutes a BitBake activity may run.
pub fn default_activity_timeout_mins() -> (r: u64)
    ensures
        r == 3,
{
    3
}

pub fn default_true() -> (r: bool)
    ensures
        r,
{
    true
}

impl Default for ServerSection {
    fn default() -> (r: Self)
        ensures
            r.host@ == "0.0.0.0"@,
            r.port == 0,
            r.shutdown_grace_secs == 20,
            r.activity_timeout == 3,
            r.http1_keep_alive,
            r.http2_keep_alive_secs is None,
    {
        ServerSection {
            host: default_server_host(),
            port: 0,
            shutdown_grace_secs: default_shutdown_grace_secs(),
            activity_timeout: default_activity_timeout_mins(),
            http1_keep_alive: true,
            http2_keep_alive_secs: None,
        }
    }
}

impl ServerSection {
    pub fn copy(&self) -> (r: Self)
        ensures
            r == *self,
    {
        ServerSection {
            host: self.host.clone(),
            port: self.port,
            shutdown_grace_secs: self.shutdown_grace_secs,
            activity_timeout: self.activity_timeout,
            http1_keep_alive: self.http1_keep_alive,
            http2_keep_alive_secs: self.http2_keep_alive_secs,
        }
    }
}

// ---------------------------------------------------------------------------
// Slugs and reference labels
// ---------------------------------------------------------------------------

/// ASCII letters and digits are kept, every other character becomes `-`.
pub open spec fn slug_char(c: char) -> char {
    if is_ascii_alnum(c) {
        c
    } else {
        '-'
    }
}

pub open spec fn slug_spec(value: Seq<char>) -> Seq<char> {
    value.map_values(|c: char| slug_char(c))
}

/// A value made safe for a directory or branch name.
pub fn slug(value: &str) -> (r: String)
    ensures
        r@ == slug_spec(value@),
{
    let chars = chars_of(value);
    let mut out = String::new();
    let mut i: usize = 0;
    while i < chars.len()
        invariant
            i <= chars@.len(),
            chars@ == value@,
            out@ == slug_spec(value@.take(i as int)),
        decreases chars@.len() - i,
    {
        let c = chars[i];
        push_char(&mut out, if is_ascii_alnum_exec(c) {
            c
        } else {
            '-'
        });
        i = i + 1;
        assert(out@ =~= slug_spec(value@.take(i as int)));
    }
    assert(value@.take(value@.len() as int) =~= value@);
    out
}

/// The first twelve characters of a commit id.
pub open spec fn short_sha_spec(sha: Seq<char>) -> Seq<char> {
    if sha.len() <= 12 {
        sha
    } else {
        sha.take(12)
    }
}

pub fn short_sha(sha: &str) -> (r: String)
    ensures
        r@ == short_sha_spec(sha@),
{
    let chars = chars_of(sha);
    let mut out = String::new();
    let mut i: usize = 0;
    while i < chars.len() && i < 12
        invariant
            i <= chars@.len(),
            i <= 12,
            chars@ == sha@,
            out@ == sha@.take(i as int),
        decreases chars@.len() - i,
    {
        push_char(&mut out, chars[i]);
        i = i + 1;
        assert(out@ =~= sha@.take(i as int));
    }
    proof {
        if sha@.len() <= 12 {
            assert(sha@.take(i as int) =~= sha@);
        }
    }
    out
}

impl LayerDependency {
    /// The layer's directory inside its repository, without surrounding `/`.
    pub open spec fn subpath_spec(&self, layer_key: Seq<char>) -> Seq<char> {
        trim_char(
            match self.path {
                Some(p) => p@,
                None => layer_key,
            },
            '/',
        )
    }

    pub fn subpath(&self, layer_key: &str) -> (r: String)
        ensures
            r@ == self.subpath_spec(layer_key@),
    {
        let source = match &self.path {
            Some(p) => chars_of(p.as_str()),
            None => chars_of(layer_key),
        };
        let trimmed = trim_char_exec(&source, '/');
        string_of(&trimmed)
    }

    /// The lock file's label of the pinned reference: a commit wins over a
    /// tag, a tag over a branch.
    pub open spec fn reference_label_spec(&self) -> Seq<char> {
        match (self.commit, self.tag, self.branch) {
            (Some(c), _, _) => "commit:"@ + c@,
            (None, Some(t), _) => "tag:"@ + t@,
            (None, None, Some(b)) => "branch:"@ + b@,
            (None, None, None) => "branch:default"@,
        }
    }

    pub fn reference_label(&self) -> (r: String)
        ensures
            r@ == self.reference_label_spec(),
    {
        if let Some(commit) = &self.commit {
            let mut s = String::from_str("commit:");
            s.append(commit.as_str());
            s
        } else if let Some(tag) = &self.tag {
            let mut s = String::from_str("tag:");
            s.append(tag.as_str());
            s
        } else if let Some(branch) = &self.branch {
            let mut s = String::from_str("branch:");
            s.append(branch.as_str());
            s
        } else {
            String::from_str("branch:default")
        }
    }

    /// The name of the worktree that checks out the pinned reference.
    pub open spec fn ref_token_spec(&self) -> Seq<char> {
        match (self.commit, self.tag, self.branch) {
            (Some(c), _, _) => "c-"@ + short_sha_spec(c@),
            (None, Some(t), _) => "t-"@ + slug_spec(t@),
            (None, None, Some(b)) => "b-"@ + slug_spec(b@),
            (None, None, None) => "default"@,
        }
    }

    pub fn ref_token(&self) -> (r: String)
        ensures
            r@ == self.ref_token_spec(),
    {
        if let Some(commit) = &self.commit {
            let mut s = String::from_str("c-");
            let short = short_sha(commit.as_str());
            s.append(short.as_str());
            s
        } else if let Some(tag) = &self.tag {
            let mut s = String::from_str("t-");
            let t = slug(tag.as_str());
            s.append(t.as_str());
            s
        } else if let Some(branch) = &self.branch {
            let mut s = String::from_str("b-");
            let b = slug(branch.as_str());
            s.append(b.as_str());
            s
        } else {
            String::from_str("default")
        }
    }

    pub fn copy(&self) -> (r: Self)
        ensures
            r == *self,
    {
        LayerDependency {
            giturl: self.giturl.clone(),
            branch: copy_opt_string(&self.branch),
            tag: copy_opt_string(&self.tag),
            commit: copy_opt_string(&self.commit),
            path: copy_opt_string(&self.path),
        }
    }
}

// ---------------------------------------------------------------------------
// The manifest
// ---------------------------------------------------------------------------

/// All non-empty git URLs of a repository's layers are the same.
pub open spec fn urls_agree(layers: Seq<(String, LayerDependency)>) -> bool {
    forall|i: int, j: int|
        0 <= i < layers.len() && 0 <= j < layers.len() && layers[i].1.giturl@.len() > 0
            && layers[j].1.giturl@.len() > 0 ==> layers[i].1.giturl@ == layers[j].1.giturl@
}

/// The first non-empty git URL among a repository's layers, in key order.
pub open spec fn first_url(layers: Seq<(String, LayerDependency)>) -> Option<Seq<char>>
    decreases layers.len(),
{
    if layers.len() == 0 {
        None
    } else if layers[0].1.giturl@.len() > 0 {
        Some(layers[0].1.giturl@)
    } else {
        first_url(layers.drop_first())
    }
}

/// Why a manifest is rejected.
#[derive(Debug)]
pub enum ConfigError {
    /// A repository's layers name different git URLs.
    MultipleUrls { dependency: String },
    /// The directory has no manifest.
    NotFound,
}

impl ConfigError {
    pub open spec fn message_spec(&self) -> Seq<char> {
        match self {
            ConfigError::MultipleUrls { dependency } => "dependency '"@ + dependency@
                + "' maps to multiple git URLs; give one a distinct name"@,
            ConfigError::NotFound => "No BitForge project config found in the directory run `BitForge --init`"@,
        }
    }

    /// The error's text.
    pub fn message(&self) -> (r: String)
        ensures
            r@ == self.message_spec(),
    {
        match self {
            ConfigError::MultipleUrls { dependency } => {
                let mut s = String::from_str("dependency '");
                s.append(dependency.as_str());
                s.append("' maps to multiple git URLs; give one a distinct name");
                s
            },
            ConfigError::NotFound => String::from_str(
                "No BitForge project config found in the directory run `BitForge --init`",
            ),
        }
    }
}

impl BitForgeConfig {
    /// Every map of the manifest is sorted.
    pub open spec fn wf(&self) -> bool {
        &&& self.dependency.wf()
        &&& forall|k: Seq<char>| #[trigger]
            self.dependency.get_spec(k) is Some ==> self.dependency.get_spec(k)->0.wf()
    }

    /// Everything but the dependencies is as in `other`.
    pub open spec fn same_but_dependency(&self, other: BitForgeConfig) -> bool {
        &&& self.workspace == other.workspace
        &&& self.layer == other.layer
        &&& self.build == other.build
        &&& self.default == other.default
        &&& self.server == other.server
        &&& self.layers == other.layers
        &&& self.disabled == other.disabled
        &&& self.source_path == other.source_path
    }

    /// Everything but the project's own layers is as in `other`.
    pub open spec fn same_but_layers(&self, other: BitForgeConfig) -> bool {
        &&& self.workspace == other.workspace
        &&& self.layer == other.layer
        &&& self.build == other.build
        &&& self.default == other.default
        &&& self.server == other.server
        &&& self.dependency == other.dependency
        &&& self.disabled == other.disabled
        &&& self.source_path == other.source_path
    }

    /// Everything but the disabled list is as in `other`.
    pub open spec fn same_but_disabled(&self, other: BitForgeConfig) -> bool {
        &&& self.workspace == other.workspace
        &&& self.layer == other.layer
        &&& self.build == other.build
        &&& self.default == other.default
        &&& self.server == other.server
        &&& self.layers == other.layers
        &&& self.dependency == other.dependency
        &&& self.source_path == other.source_path
    }

    /// Each repository's layers agree on their git URL.
    pub open spec fn all_urls_agree(&self) -> bool {
        forall|i: int|
            0 <= i < self.dependency.entries@.len() ==> urls_agree(
                (#[trigger] self.dependency.entries@[i]).1.entries@,
            )
    }

    /// `BitForge.toml` inside `directory`.
    pub fn path_in(directory: &str) -> (r: String)
        ensures
            r@ == path_join(directory@, CONFIG_FILE_NAME@),
    {
        join(directory, CONFIG_FILE_NAME)
    }

    /// A command that needs the manifest is refused when the directory has
    /// none (`config_exists` tells whether `BitForge.toml` is there).
    pub fn ensure_present_in(config_exists: bool) -> (r: Result<(), ConfigError>)
        ensures
            config_exists ==> r is Ok,
            !config_exists ==> r matches Err(ConfigError::NotFound),
    {
        if !config_exists {
            return Err(ConfigError::NotFound);
        }
        Ok(())
    }

    /// The workspace name, else the layer name, else `BitForge`.
    pub open spec fn display_name_spec(&self) -> Seq<char> {
        match (self.workspace, self.layer) {
            (Some(w), _) => w.name@,
            (None, Some(l)) => l.name@,
            (None, None) => "BitForge"@,
        }
    }

    pub fn display_name(&self) -> (r: String)
        ensures
            r@ == self.display_name_spec(),
    {
        if let Some(workspace) = &self.workspace {
            return workspace.name.clone();
        }
        if let Some(layer) = &self.layer {
            return layer.name.clone();
        }
        String::from_str("BitForge")
    }

    /// The `[default]` image, unless it is empty.
    pub open spec fn default_image_spec(&self) -> Option<Seq<char>> {
        match self.default {
            Some(d) => if d.image@.len() > 0 {
                Some(d.image@)
            } else {
                None
            },
            None => None,
        }
    }

    pub fn default_image(&self) -> (r: Option<String>)
        ensures
            match r {
                Some(s) => self.default_image_spec() == Some(s@),
                None => self.default_image_spec() is None,
            },
    {
        match &self.default {
            Some(section) => {
                if section.image.as_str().unicode_len() > 0 {
                    Some(section.image.clone())
                } else {
                    None
                }
            },
            None => None,
        }
    }

    /// The workspace's Yocto release, unless absent or empty: `scarthgap`.
    pub open spec fn effective_release_spec(&self) -> Seq<char> {
        match self.workspace {
            Some(w) => match w.yocto_release {
                Some(r) => if r@.len() > 0 {
                    r@
                } else {
                    "scarthgap"@
                },
                None => "scarthgap"@,
            },
            None => "scarthgap"@,
        }
    }

    pub fn effective_release(&self) -> (r: String)
        ensures
            r@ == self.effective_release_spec(),
    {
        if let Some(workspace) = &self.workspace {
            if let Some(release) = &workspace.yocto_release {
                if release.as_str().unicode_len() > 0 {
                    return release.clone();
                }
            }
        }
        String::from_str("scarthgap")
    }

    /// The git URL of repository `gitname`: the first non-empty URL of its layers.
    pub open spec fn dependency_giturl_spec(&self, gitname: Seq<char>) -> Option<Seq<char>> {
        match self.dependency.get_spec(gitname) {
            Some(layers) => first_url(layers.entries@),
            None => None,
        }
    }

    pub fn dependency_giturl(&self, gitname: &str) -> (r: Option<String>)
        requires
            self.wf(),
        ensures
            match r {
                Some(s) => self.dependency_giturl_spec(gitname@) == Some(s@),
                None => self.dependency_giturl_spec(gitname@) is None,
            },
    {
        let key = String::from_str(gitname);
        let layers = match self.dependency.get(&key) {
            Some(l) => l,
            None => {
                return None;
            },
        };
        let mut i: usize = 0;
        assert(layers.entries@.skip(0) =~= layers.entries@);
        while i < layers.entries.len()
            invariant
                i <= layers.entries@.len(),
                self.dependency.get_spec(gitname@) == Some(*layers),
                first_url(layers.entries@) == first_url(layers.entries@.skip(i as int)),
            decreases layers.entries@.len() - i,
        {
            assert(layers.entries@.skip(i as int).drop_first() =~= layers.entries@.skip(i + 1));
            assert(layers.entries@.skip(i as int)[0] == layers.entries@[i as int]);
            if layers.entries[i].1.giturl.as_str().unicode_len() > 0 {
                return Some(layers.entries[i].1.giturl.clone());
            }
            i = i + 1;
        }
        None
    }

    /// The manifest is accepted when each repository's layers agree on
    /// their git URL; otherwise the first repository (in key order) whose
    /// layers do not is named.
    pub fn validate(&self) -> (r: Result<(), ConfigError>)
        ensures
            r is Ok <==> self.all_urls_agree(),
            match r {
                Ok(()) => self.all_urls_agree(),
                Err(ConfigError::MultipleUrls { dependency }) => exists|i: int|
                    0 <= i < self.dependency.entries@.len() && !urls_agree(
                        (#[trigger] self.dependency.entries@[i]).1.entries@,
                    ) && dependency@ == self.dependency.entries@[i].0@ && forall|j: int|
                        0 <= j < i ==> urls_agree(self.dependency.entries@[j].1.entries@),
                Err(ConfigError::NotFound) => false,
            },
    {
        let mut i: usize = 0;
        while i < self.dependency.entries.len()
            invariant
                i <= self.dependency.entries@.len(),
                forall|j: int| 0 <= j < i ==> urls_agree(self.dependency.entries@[j].1.entries@),
            decreases self.dependency.entries@.len() - i,
        {
            let layers = &self.dependency.entries[i].1.entries;
            if !urls_agree_exec(layers) {
                return Err(ConfigError::MultipleUrls {
                    dependency: self.dependency.entries[i].0.clone(),
                });
            }
            i = i + 1;
        }
        Ok(())
    }

    /// A copy of `[server]`, or its defaults.
    pub fn server_section(&self) -> (r: ServerSection)
        ensures
            match self.server {
                Some(s) => r == s,
                None => r.host@ == "0.0.0.0"@ && r.port == 0 && r.shutdown_grace_secs == 20
                    && r.activity_timeout == 3 && r.http1_keep_alive && r.http2_keep_alive_secs is None,
            },
    {
        match &self.server {
            Some(server) => server.copy(),
            None => ServerSection::default(),
        }
    }

    /// Whether `name` is listed as disabled.
    pub fn is_disabled(&self, name: &str) -> (r: bool)
        ensures
            r == exists|i: int| 0 <= i < self.disabled@.len() && (#[trigger] self.disabled@[i])@ == name@,
    {
        let key = String::from_str(name);
        let mut i: usize = 0;
        while i < self.disabled.len()
            invariant
                i <= self.disabled@.len(),
                key@ == name@,
                forall|j: int| 0 <= j < i ==> (#[trigger] self.disabled@[j])@ != name@,
            decreases self.disabled@.len() - i,
        {
            if self.disabled[i] == key {
                return true;
            }
            i = i + 1;
        }
        false
    }
}

/// Whether the non-empty URLs of the layers agree: every one equals the first.
fn urls_agree_exec(layers: &Vec<(String, LayerDependency)>) -> (r: bool)
    ensures
        r == urls_agree(layers@),
{
    let mut first: Option<usize> = None;
    let mut i: usize = 0;
    while i < layers.len()
        invariant
            i <= layers@.len(),
            match first {
                Some(f) => f < i && layers@[f as int].1.giturl@.len() > 0 && forall|j: int|
                    0 <= j < i && layers@[j].1.giturl@.len() > 0 ==> layers@[j].1.giturl@
                        == layers@[f as int].1.giturl@,
                None => forall|j: int| 0 <= j < i ==> layers@[j].1.giturl@.len() == 0,
            },
        decreases layers@.len() - i,
    {
        if layers[i].1.giturl.as_str().unicode_len() > 0 {
            match first {
                Some(f) => {
                    if !(layers[i].1.giturl == layers[f].1.giturl) {
                        return false;
                    }
                },
                None => {
                    first = Some(i);
                },
            }
        }
        i = i + 1;
    }
    true
}

} // verus!
