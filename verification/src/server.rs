//! Decisions of the web server: its settings, the address it reports, the
//! machine's memory, the cache view, dependency actions and saving WKS files.

use vstd::prelude::*;

use crate::config::{BitForgeConfig, DefaultSection, ServerSection, WorkspaceSection};
use crate::text::{
    chars_of, decimal, decimal_string, eq_str, first_word, first_word_exec, opt_view, parse_u64,
    parse_u64_spec, split, split_exec, strip_prefix, strip_prefix_exec, views,
};
use crate::workspace::{wks_destination, path_join};

verus! {

// ---------------------------------------------------------------------------
// Settings
// ---------------------------------------------------------------------------

/// How the web server runs (durations in seconds).
#[derive(Debug)]
pub struct ServerSettings {
    pub host: String,
    pub port: u16,
    pub shutdown_grace_secs: u64,
    pub activity_timeout_secs: u64,
    pub http1_keep_alive: bool,
    pub http2_keep_alive_secs: Option<u64>,
}

impl Default for ServerSettings {
    fn default() -> (r: Self)
        ensures
            r.host@ == "0.0.0.0"@,
            r.port == 0,
            r.shutdown_grace_secs == 20,
            r.activity_timeout_secs == 180,
            r.http1_keep_alive,
            r.http2_keep_alive_secs is None,
    {
        ServerSettings {
            host: String::from_str("0.0.0.0"),
            port: 0,
            shutdown_grace_secs: 20,
            activity_timeout_secs: 180,
            http1_keep_alive: true,
            http2_keep_alive_secs: None,
        }
    }
}

impl ServerSettings {
    /// The settings of a `[server]` section; its activity timeout is in minutes.
    pub fn from_section(section: &ServerSection) -> (r: Self)
        requires
            section.activity_timeout * 60 <= u64::MAX,
        ensures
            r.host@ == section.host@,
            r.port == section.port,
            r.shutdown_grace_secs == section.shutdown_grace_secs,
            r.activity_timeout_secs == section.activity_timeout * 60,
            r.http1_keep_alive == section.http1_keep_alive,
            r.http2_keep_alive_secs == section.http2_keep_alive_secs,
    {
        ServerSettings {
            host: section.host.clone(),
            port: section.port,
            shutdown_grace_secs: section.shutdown_grace_secs,
            activity_timeout_secs: section.activity_timeout * 60,
            http1_keep_alive: section.http1_keep_alive,
            http2_keep_alive_secs: section.http2_keep_alive_secs,
        }
    }
}

/// The address shown to the user: `localhost` with the port when the
/// server listens on every interface, else the bound address.
pub fn server_url(host_unspecified: bool, address: &str, port: u16) -> (r: String)
    ensures
        host_unspecified ==> r@ == "http://localhost:"@ + decimal(port as nat),
        !host_unspecified ==> r@ == "http://"@ + address@,
{
    if host_unspecified {
        let mut s = String::from_str("http://localhost:");
        let digits = decimal_string(port as u64);
        s.append(digits.as_str());
        s
    } else {
        let mut s = String::from_str("http://");
        s.append(address);
        s
    }
}

/// The message of an activity stopped after `timeout_secs` seconds; the
/// limit is shown in whole minutes, rounded up.
pub open spec fn timeout_message_spec(action: Seq<char>, timeout_secs: u64) -> Seq<char> {
    let minutes = (timeout_secs as int + 59) / 60;
    "TIMEOUT: activity '"@ + action + "' did not finish within "@ + decimal(minutes as nat)
        + " min. Add `activity_timeout = <minutes>` under [server] in BitForge.toml to wait longer."@
}

pub fn activity_timeout_message(action: &str, timeout_secs: u64) -> (r: String)
    ensures
        r@ == timeout_message_spec(action@, timeout_secs),
{
    let q = timeout_secs / 60;
    let rem = timeout_secs % 60;
    let minutes = q + if rem != 0 {
        1
    } else {
        0
    };
    assert(minutes as int == (timeout_secs as int + 59) / 60) by (nonlinear_arith)
        requires
            q == timeout_secs / 60,
            rem == timeout_secs % 60,
            minutes == q + (if rem != 0 {
                1int
            } else {
                0int
            }),
    ;
    let mut s = String::from_str("TIMEOUT: activity '");
    s.append(action);
    s.append("' did not finish within ");
    let digits = decimal_string(minutes);
    s.append(digits.as_str());
    s.append(
        " min. Add `activity_timeout = <minutes>` under [server] in BitForge.toml to wait longer.",
    );
    s
}

// ---------------------------------------------------------------------------
// Memory
// ---------------------------------------------------------------------------

/// A `/proc/meminfo` amount in KiB as bytes: its first word read as a
/// number and multiplied by 1024 (wrapping), else 0.
pub open spec fn kib_spec(value: Seq<char>) -> u64 {
    match first_word(value) {
        Some(w) => match parse_u64_spec(w) {
            Some(n) => n.wrapping_mul(1024u64),
            None => 0,
        },
        None => 0,
    }
}

pub fn parse_kib(value: &str) -> (r: u64)
    ensures
        r == kib_spec(value@),
{
    let chars = chars_of(value);
    match first_word_exec(&chars) {
        Some(w) => match parse_u64(&w) {
            Some(n) => n.wrapping_mul(1024),
            None => 0,
        },
        None => 0,
    }
}

/// Total memory, available memory, total swap and free swap, in bytes.
#[derive(Debug, PartialEq, Eq, Structural, Clone, Copy)]
pub struct MemInfo {
    pub total: u64,
    pub available: u64,
    pub swap_total: u64,
    pub swap_free: u64,
}

/// The amounts read from the lines of `/proc/meminfo`; a later line for
/// the same amount wins, and an amount never given is 0.
pub open spec fn meminfo_fold(lines: Seq<Seq<char>>) -> MemInfo
    decreases lines.len(),
{
    if lines.len() == 0 {
        MemInfo { total: 0, available: 0, swap_total: 0, swap_free: 0 }
    } else {
        let m = meminfo_fold(lines.drop_last());
        let line = lines.last();
        match strip_prefix(line, "MemTotal:"@) {
            Some(rest) => MemInfo { total: kib_spec(rest), ..m },
            None => match strip_prefix(line, "MemAvailable:"@) {
                Some(rest) => MemInfo { available: kib_spec(rest), ..m },
                None => match strip_prefix(line, "SwapTotal:"@) {
                    Some(rest) => MemInfo { swap_total: kib_spec(rest), ..m },
                    None => match strip_prefix(line, "SwapFree:"@) {
                        Some(rest) => MemInfo { swap_free: kib_spec(rest), ..m },
                        None => m,
                    },
                },
            },
        }
    }
}

/// The memory amounts of the text of `/proc/meminfo`.
pub fn parse_meminfo(contents: &str) -> (r: MemInfo)
    ensures
        r == meminfo_fold(split(contents@, "\n"@)),
{
    let chars = chars_of(contents);
    let nl = chars_of("\n");
    proof {
        reveal_strlit("\n");
    }
    let lines = split_exec(&chars, &nl);
    let ghost ls = views(lines@);
    let mem_total = chars_of("MemTotal:");
    let mem_available = chars_of("MemAvailable:");
    let swap_total = chars_of("SwapTotal:");
    let swap_free = chars_of("SwapFree:");
    let mut m = MemInfo { total: 0, available: 0, swap_total: 0, swap_free: 0 };
    let mut i: usize = 0;
    while i < lines.len()
        invariant
            i <= lines@.len(),
            ls == views(lines@),
            ls == split(contents@, "\n"@),
            mem_total@ == "MemTotal:"@,
            mem_available@ == "MemAvailable:"@,
            swap_total@ == "SwapTotal:"@,
            swap_free@ == "SwapFree:"@,
            m == meminfo_fold(ls.take(i as int)),
        decreases lines@.len() - i,
    {
        assert(ls.take(i + 1).drop_last() =~= ls.take(i as int));
        assert(ls.take(i + 1).last() == lines@[i as int]@);
        let line = &lines[i];
        if let Some(rest) = strip_prefix_exec(line, &mem_total) {
            m.total = kib_of(&rest);
        } else if let Some(rest) = strip_prefix_exec(line, &mem_available) {
            m.available = kib_of(&rest);
        } else if let Some(rest) = strip_prefix_exec(line, &swap_total) {
            m.swap_total = kib_of(&rest);
        } else if let Some(rest) = strip_prefix_exec(line, &swap_free) {
            m.swap_free = kib_of(&rest);
        }
        i = i + 1;
    }
    assert(ls.take(ls.len() as int) =~= ls);
    m
}

fn kib_of(rest: &Vec<char>) -> (r: u64)
    ensures
        r == kib_spec(rest@),
{
    let text = crate::text::string_of(rest);
    parse_kib(text.as_str())
}

// ---------------------------------------------------------------------------
// The build cache view
// ---------------------------------------------------------------------------

/// A directory of the build cache shown in the UI.
#[derive(Debug)]
pub struct CacheEntry {
    pub key: String,
    pub label: String,
    pub path: String,
}

fn cache_entry(key: &str, label: &str, path: &str) -> (r: CacheEntry)
    ensures
        r.key@ == key@,
        r.label@ == label@,
        r.path@ == path@,
{
    CacheEntry {
        key: String::from_str(key),
        label: String::from_str(label),
        path: String::from_str(path),
    }
}

/// The directories of the build cache: downloads, shared state, build
/// output and build history, relative to the project.
pub fn cache_entries() -> (r: Vec<CacheEntry>)
    ensures
        r@.len() == 4,
        r@[0].key@ == "downloads"@ && r@[0].label@ == "Downloads (DL_DIR)"@ && r@[0].path@
            == "build/downloads"@,
        r@[1].key@ == "sstate"@ && r@[1].label@ == "Shared state cache (SSTATE_DIR)"@
            && r@[1].path@ == "build/sstate-cache"@,
        r@[2].key@ == "tmp"@ && r@[2].label@ == "Build output (TMPDIR)"@ && r@[2].path@
            == "build/tmp"@,
        r@[3].key@ == "buildhistory"@ && r@[3].label@ == "Build history"@ && r@[3].path@
            == "build/buildhistory"@,
{
    let mut v: Vec<CacheEntry> = Vec::new();
    v.push(cache_entry("downloads", "Downloads (DL_DIR)", "build/downloads"));
    v.push(cache_entry("sstate", "Shared state cache (SSTATE_DIR)", "build/sstate-cache"));
    v.push(cache_entry("tmp", "Build output (TMPDIR)", "build/tmp"));
    v.push(cache_entry("buildhistory", "Build history", "build/buildhistory"));
    v
}

/// The sizes summed over the cache directories.
#[derive(Debug, PartialEq, Eq, Structural, Clone, Copy)]
pub struct CacheTotals {
    /// Every directory.
    pub total: u64,
    /// The downloads.
    pub downloads: u64,
    /// Shared state and build output.
    pub cache: u64,
}

/// The totals of the sizes of the four cache directories, in the order of
/// [`cache_entries`].
pub fn cache_totals(bytes: &Vec<u64>) -> (r: CacheTotals)
    requires
        bytes@.len() == 4,
        bytes@[0] + bytes@[1] + bytes@[2] + bytes@[3] <= u64::MAX,
    ensures
        r.total == bytes@[0] + bytes@[1] + bytes@[2] + bytes@[3],
        r.downloads == bytes@[0],
        r.cache == bytes@[1] + bytes@[2],
{
    CacheTotals {
        total: bytes[0] + bytes[1] + bytes[2] + bytes[3],
        downloads: bytes[0],
        cache: bytes[1] + bytes[2],
    }
}

/// Whether to start a cache scan, and whether to report one as under way:
/// the stored figures are stale when missing or older than 30 seconds.
pub fn cache_scan_due(updated_at: Option<i64>, now: i64, scanning: bool) -> (r: (bool, bool))
    ensures
        ({
            let stale = match updated_at {
                Some(u) => now - u > 30,
                None => true,
            };
            r == (!scanning && stale, scanning || stale)
        }),
{
    let stale = match updated_at {
        Some(u) => (now as i128) - (u as i128) > 30,
        None => true,
    };
    (!scanning && stale, scanning || stale)
}

// ---------------------------------------------------------------------------
// Dependency actions
// ---------------------------------------------------------------------------

/// A dependency command sent by the UI.
#[derive(Debug)]
pub enum DependencyCommand {
    Add(String),
    Remove(String),
    Delink(String),
    Relink(String),
}

/// Why a dependency command is refused.
#[derive(Debug)]
pub enum ActionError {
    SpecRequired,
    TargetRequired,
    UnknownAction(String),
}

impl ActionError {
    pub open spec fn message_spec(&self) -> Seq<char> {
        match self {
            ActionError::SpecRequired => "spec required"@,
            ActionError::TargetRequired => "target required"@,
            ActionError::UnknownAction(a) => "unknown action '"@ + a@ + "'"@,
        }
    }

    pub fn message(&self) -> (r: String)
        ensures
            r@ == self.message_spec(),
    {
        match self {
            ActionError::SpecRequired => String::from_str("spec required"),
            ActionError::TargetRequired => String::from_str("target required"),
            ActionError::UnknownAction(a) => {
                let mut s = String::from_str("unknown action '");
                s.append(a.as_str());
                s.append("'");
                s
            },
        }
    }
}

proof fn distinct_actions()
    ensures
        "add"@ != "remove"@,
        "add"@ != "delink"@,
        "add"@ != "relink"@,
        "remove"@ != "delink"@,
        "remove"@ != "relink"@,
        "delink"@ != "relink"@,
{
    reveal_strlit("add");
    reveal_strlit("remove");
    reveal_strlit("delink");
    reveal_strlit("relink");
    assert("add"@.len() != "remove"@.len());
    assert("add"@.len() != "delink"@.len());
    assert("add"@.len() != "relink"@.len());
    assert("remove"@[0] != "delink"@[0]);
    assert("remove"@[2] != "relink"@[2]);
    assert("delink"@[0] != "relink"@[0]);
}

/// The command of an action: `add` takes the spec, `remove` the name,
/// `delink` and `relink` the layer.
pub fn parse_dependency_action(
    action: &str,
    spec: Option<String>,
    name: Option<String>,
    layer: Option<String>,
) -> (r: Result<DependencyCommand, ActionError>)
    ensures
        action@ == "add"@ ==> match spec {
            Some(s) => r matches Ok(DependencyCommand::Add(x)) && x == s,
            None => r matches Err(ActionError::SpecRequired),
        },
        action@ == "remove"@ ==> match name {
            Some(n) => r matches Ok(DependencyCommand::Remove(x)) && x == n,
            None => r matches Err(ActionError::TargetRequired),
        },
        action@ == "delink"@ ==> match layer {
            Some(l) => r matches Ok(DependencyCommand::Delink(x)) && x == l,
            None => r matches Err(ActionError::TargetRequired),
        },
        action@ == "relink"@ ==> match layer {
            Some(l) => r matches Ok(DependencyCommand::Relink(x)) && x == l,
            None => r matches Err(ActionError::TargetRequired),
        },
        !(action@ == "add"@ || action@ == "remove"@ || action@ == "delink"@ || action@
            == "relink"@) ==> (r matches Err(ActionError::UnknownAction(a)) && a@ == action@),
{
    proof {
        distinct_actions();
    }
    let a = String::from_str(action);
    if eq_str(&a, "add") {
        match spec {
            Some(s) => Ok(DependencyCommand::Add(s)),
            None => Err(ActionError::SpecRequired),
        }
    } else if eq_str(&a, "remove") {
        match name {
            Some(n) => Ok(DependencyCommand::Remove(n)),
            None => Err(ActionError::TargetRequired),
        }
    } else if eq_str(&a, "delink") {
        match layer {
            Some(l) => Ok(DependencyCommand::Delink(l)),
            None => Err(ActionError::TargetRequired),
        }
    } else if eq_str(&a, "relink") {
        match layer {
            Some(l) => Ok(DependencyCommand::Relink(l)),
            None => Err(ActionError::TargetRequired),
        }
    } else {
        Err(ActionError::UnknownAction(a))
    }
}

impl DependencyCommand {
    pub open spec fn label_spec(&self) -> Seq<char> {
        match self {
            DependencyCommand::Add(s) => "git: add dependency · "@ + s@,
            DependencyCommand::Remove(t) => "dependency remove: "@ + t@,
            DependencyCommand::Delink(t) => "dependency delink: "@ + t@,
            DependencyCommand::Relink(t) => "dependency relink: "@ + t@,
        }
    }

    pub open spec fn key_spec(&self) -> Seq<char> {
        match self {
            DependencyCommand::Add(s) => "dep-add:"@ + s@,
            DependencyCommand::Remove(t) => "dep-remove:"@ + t@,
            DependencyCommand::Delink(t) => "dep-delink:"@ + t@,
            DependencyCommand::Relink(t) => "dep-relink:"@ + t@,
        }
    }

    /// The label of the activity that runs the command.
    pub fn task_label(&self) -> (r: String)
        ensures
            r@ == self.label_spec(),
    {
        let (head, tail) = match self {
            DependencyCommand::Add(s) => ("git: add dependency · ", s),
            DependencyCommand::Remove(t) => ("dependency remove: ", t),
            DependencyCommand::Delink(t) => ("dependency delink: ", t),
            DependencyCommand::Relink(t) => ("dependency relink: ", t),
        };
        let mut s = String::from_str(head);
        s.append(tail.as_str());
        s
    }

    /// The key that keeps two runs of the command apart.
    pub fn task_key(&self) -> (r: String)
        ensures
            r@ == self.key_spec(),
    {
        let (head, tail) = match self {
            DependencyCommand::Add(s) => ("dep-add:", s),
            DependencyCommand::Remove(t) => ("dep-remove:", t),
            DependencyCommand::Delink(t) => ("dep-delink:", t),
            DependencyCommand::Relink(t) => ("dep-relink:", t),
        };
        let mut s = String::from_str(head);
        s.append(tail.as_str());
        s
    }
}

// ---------------------------------------------------------------------------
// Project settings
// ---------------------------------------------------------------------------

/// Applies the manifest part of a project update from the UI: a new
/// default image and a new Yocto release (creating `[workspace]` with empty
/// fields when there is none).
pub fn apply_project_update(
    config: &mut BitForgeConfig,
    target_image: Option<String>,
    yocto_release: Option<String>,
)
    ensures
        final(config).default == match target_image {
            Some(i) => Some(DefaultSection { image: i }),
            None => old(config).default,
        },
        match yocto_release {
            Some(rel) => final(config).workspace matches Some(w) && w.yocto_release == Some(rel)
                && match old(config).workspace {
                Some(ow) => w.name == ow.name && w.bitbake == ow.bitbake,
                None => w.name@.len() == 0 && w.bitbake@.len() == 0,
            },
            None => final(config).workspace == old(config).workspace,
        },
        final(config).layer == old(config).layer,
        final(config).build == old(config).build,
        final(config).server == old(config).server,
        final(config).layers == old(config).layers,
        final(config).dependency == old(config).dependency,
        final(config).disabled == old(config).disabled,
        final(config).source_path == old(config).source_path,
{
    if let Some(image) = target_image {
        config.default = Some(DefaultSection { image });
    }
    if let Some(release) = yocto_release {
        let workspace = match config.workspace.take() {
            Some(w) => WorkspaceSection { yocto_release: Some(release), ..w },
            None => WorkspaceSection {
                name: String::new(),
                bitbake: String::new(),
                yocto_release: Some(release),
            },
        };
        config.workspace = Some(workspace);
    }
}

// ---------------------------------------------------------------------------
// Saving a WKS file
// ---------------------------------------------------------------------------

/// WKS files larger than this are refused.
pub const WKS_SIZE_LIMIT: usize = 1048576;

/// Whether `path` begins with the whole components of `base`
/// (`Path::starts_with`).
pub uninterp spec fn path_has_prefix(path: Seq<char>, base: Seq<char>) -> bool;

/// `Path::starts_with`: whether `base` is a prefix of `path`, compared by
/// whole components.
#[verifier::external_body]
fn path_starts_with(path: &str, base: &str) -> (r: bool)
    ensures
        r == path_has_prefix(path@, base@),
{
    std::path::Path::new(path).starts_with(base)
}

/// Why a WKS file cannot be saved.
#[derive(Debug)]
pub enum LayoutError {
    TooLarge,
    UnknownTargetLayer,
    NoProjectLayer,
    OutsideProject,
}

impl LayoutError {
    pub open spec fn message_spec(&self) -> Seq<char> {
        match self {
            LayoutError::TooLarge => "wks content too large"@,
            LayoutError::UnknownTargetLayer => "unknown target layer"@,
            LayoutError::NoProjectLayer => "no project layer to save into"@,
            LayoutError::OutsideProject => "refusing to write outside the project"@,
        }
    }

    pub fn message(&self) -> (r: &'static str)
        ensures
            r@ == self.message_spec(),
    {
        match self {
            LayoutError::TooLarge => "wks content too large",
            LayoutError::UnknownTargetLayer => "unknown target layer",
            LayoutError::NoProjectLayer => "no project layer to save into",
            LayoutError::OutsideProject => "refusing to write outside the project",
        }
    }
}

/// The index of the first layer named `name`, or `-1`.
pub open spec fn layer_named(layers: Seq<(String, String)>, name: Seq<char>) -> int
    decreases layers.len(),
{
    if layers.len() == 0 {
        -1
    } else {
        let r = layer_named(layers.drop_last(), name);
        if r >= 0 {
            r
        } else if layers.last().0@ == name {
            layers.len() - 1
        } else {
            -1
        }
    }
}

proof fn lemma_layer_named_prefix(layers: Seq<(String, String)>, name: Seq<char>, n: int)
    requires
        0 < n <= layers.len(),
        layer_named(layers.take(n), name) >= 0,
    ensures
        layer_named(layers, name) == layer_named(layers.take(n), name),
    decreases layers.len() - n,
{
    if n < layers.len() {
        assert(layers.take(n + 1).drop_last() =~= layers.take(n));
        lemma_layer_named_prefix(layers, name, n + 1);
    } else {
        assert(layers.take(n) =~= layers);
    }
}

/// A WKS file of `len` bytes may be saved only up to [`WKS_SIZE_LIMIT`].
pub fn check_wks_size(len: usize) -> (r: Result<(), LayoutError>)
    ensures
        r is Ok <==> len <= WKS_SIZE_LIMIT,
        r is Err ==> r->Err_0 is TooLarge,
{
    if len > WKS_SIZE_LIMIT {
        Err(LayoutError::TooLarge)
    } else {
        Ok(())
    }
}

/// The project's own layers as (name, directory): each layer the manifest
/// lists, in its order, with its path taken under `root`.
pub fn own_project_layers(config: &BitForgeConfig, root: &str) -> (r: Vec<(String, String)>)
    ensures
        r@.len() == config.layers@.len(),
        forall|i: int|
            #![trigger r@[i]]
            0 <= i < r@.len() ==> r@[i].0 == config.layers@[i].name && r@[i].1@ == path_join(
                root@,
                config.layers@[i].path@,
            ),
{
    let mut out: Vec<(String, String)> = Vec::new();
    let mut i: usize = 0;
    while i < config.layers.len()
        invariant
            i <= config.layers@.len(),
            out@.len() == i,
            forall|j: int|
                #![trigger out@[j]]
                0 <= j < i ==> out@[j].0 == config.layers@[j].name && out@[j].1@ == path_join(
                    root@,
                    config.layers@[j].path@,
                ),
        decreases config.layers@.len() - i,
    {
        let layer = &config.layers[i];
        out.push((layer.name.clone(), crate::workspace::join(root, layer.path.as_str())));
        i = i + 1;
    }
    out
}

/// Some own layer's directory is a prefix of `source`.
pub open spec fn inside_own_layer(layers: Seq<(String, String)>, source: Seq<char>) -> bool {
    exists|i: int| 0 <= i < layers.len() && path_has_prefix(source, #[trigger] layers[i].1@)
}

/// The WKS destination inside a layer directory.
pub open spec fn wks_path_spec(layer_path: Seq<char>, image: Seq<char>) -> Seq<char> {
    path_join(path_join(layer_path, "wic"@), image + ".wks"@)
}

/// Where a WKS file for `image` is saved: in the named target layer, else
/// where it came from when that is inside one of the project's own layers,
/// else in the first own layer; never outside `root`. `own_layers` are the
/// project's own layers as (name, directory).
pub fn choose_wks_target(
    target_layer: Option<&str>,
    own_layers: &Vec<(String, String)>,
    source_path: Option<&str>,
    image: &str,
    root: &str,
) -> (r: Result<String, LayoutError>)
    ensures
        ({
            let chosen: Option<Seq<char>> = match target_layer {
                Some(t) => if layer_named(own_layers@, t@) >= 0 {
                    Some(wks_path_spec(own_layers@[layer_named(own_layers@, t@)].1@, image@))
                } else {
                    None
                },
                None => match source_path {
                    Some(s) => if inside_own_layer(own_layers@, s@) {
                        Some(s@)
                    } else if own_layers@.len() > 0 {
                        Some(wks_path_spec(own_layers@[0].1@, image@))
                    } else {
                        None
                    },
                    None => if own_layers@.len() > 0 {
                        Some(wks_path_spec(own_layers@[0].1@, image@))
                    } else {
                        None
                    },
                },
            };
            match chosen {
                None => if target_layer is Some {
                    r matches Err(LayoutError::UnknownTargetLayer)
                } else {
                    r matches Err(LayoutError::NoProjectLayer)
                },
                Some(p) => if path_has_prefix(p, root@) {
                    r matches Ok(x) && x@ == p
                } else {
                    r matches Err(LayoutError::OutsideProject)
                },
            }
        }),
{
    let target: String = match target_layer {
        Some(t) => match find_layer(own_layers, t) {
            Some(k) => wks_destination(own_layers[k].1.as_str(), image),
            None => {
                return Err(LayoutError::UnknownTargetLayer);
            },
        },
        None => {
            let inside = match source_path {
                Some(s) => source_inside(own_layers, s),
                None => false,
            };
            match source_path {
                Some(s) if inside => String::from_str(s),
                _ => {
                    if own_layers.len() > 0 {
                        wks_destination(own_layers[0].1.as_str(), image)
                    } else {
                        return Err(LayoutError::NoProjectLayer);
                    }
                },
            }
        },
    };
    if !path_starts_with(target.as_str(), root) {
        return Err(LayoutError::OutsideProject);
    }
    Ok(target)
}

fn find_layer(own_layers: &Vec<(String, String)>, name: &str) -> (r: Option<usize>)
    ensures
        match r {
            Some(k) => k < own_layers@.len() && k as int == layer_named(own_layers@, name@),
            None => layer_named(own_layers@, name@) == -1,
        },
{
    let wanted = String::from_str(name);
    let mut i: usize = 0;
    while i < own_layers.len()
        invariant
            i <= own_layers@.len(),
            wanted@ == name@,
            layer_named(own_layers@.take(i as int), name@) == -1,
        decreases own_layers@.len() - i,
    {
        assert(own_layers@.take(i + 1).drop_last() =~= own_layers@.take(i as int));
        assert(own_layers@.take(i + 1).last() == own_layers@[i as int]);
        if own_layers[i].0 == wanted {
            proof {
                lemma_layer_named_prefix(own_layers@, name@, i + 1);
            }
            return Some(i);
        }
        i = i + 1;
    }
    assert(own_layers@.take(own_layers@.len() as int) =~= own_layers@);
    None
}

/// What the UI is told about where a WKS file can be saved.
#[derive(Debug)]
pub struct LayoutAnnotation {
    /// The WKS file comes from one of the project's own layers.
    pub editable_in_place: bool,
    /// The names of the project's own layers.
    pub project_layers: Vec<String>,
    /// The layer a WKS file is saved into by default: the first own layer.
    pub default_layer: Option<String>,
}

/// Annotates an image layout whose WKS file is at `source_path` (if known),
/// given the project's own layers as (name, directory).
pub fn annotate_layout(own_layers: &Vec<(String, String)>, source_path: Option<&str>) -> (r:
    LayoutAnnotation)
    ensures
        r.editable_in_place == match source_path {
            Some(s) => inside_own_layer(own_layers@, s@),
            None => false,
        },
        r.project_layers@.len() == own_layers@.len(),
        forall|i: int|
            0 <= i < own_layers@.len() ==> (#[trigger] r.project_layers@[i])@ == own_layers@[i].0@,
        own_layers@.len() == 0 ==> r.default_layer is None,
        own_layers@.len() > 0 ==> (r.default_layer matches Some(d) && d@ == own_layers@[0].0@),
{
    let editable_in_place = match source_path {
        Some(s) => source_inside(own_layers, s),
        None => false,
    };
    let mut project_layers: Vec<String> = Vec::new();
    let mut i: usize = 0;
    while i < own_layers.len()
        invariant
            i <= own_layers@.len(),
            project_layers@.len() == i,
            forall|j: int| 0 <= j < i ==> (#[trigger] project_layers@[j])@ == own_layers@[j].0@,
        decreases own_layers@.len() - i,
    {
        project_layers.push(own_layers[i].0.clone());
        i = i + 1;
    }
    let default_layer = if own_layers.len() > 0 {
        Some(own_layers[0].0.clone())
    } else {
        None
    };
    LayoutAnnotation { editable_in_place, project_layers, default_layer }
}

fn source_inside(own_layers: &Vec<(String, String)>, source: &str) -> (r: bool)
    ensures
        r == inside_own_layer(own_layers@, source@),
{
    let mut i: usize = 0;
    while i < own_layers.len()
        invariant
            i <= own_layers@.len(),
            forall|j: int| 0 <= j < i ==> !path_has_prefix(source@, #[trigger] own_layers@[j].1@),
        decreases own_layers@.len() - i,
    {
        if path_starts_with(source, own_layers[i].1.as_str()) {
            return true;
        }
        i = i + 1;
    }
    false
}

} // verus!
