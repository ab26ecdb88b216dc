use bitforge::config::{
    default_bitbake_version, short_sha, slug, BitForgeConfig, ConfigError, DefaultSection,
    LayerDependency, LayerSection, ServerSection, WorkspaceSection,
};
use bitforge::sorted_map::SortedMap;

fn empty_config() -> BitForgeConfig {
    BitForgeConfig {
        workspace: None,
        layer: None,
        build: None,
        default: None,
        server: None,
        layers: vec![],
        dependency: SortedMap::new(),
        disabled: vec![],
        source_path: String::new(),
    }
}

fn dep(url: &str) -> LayerDependency {
    LayerDependency { giturl: url.to_string(), branch: None, tag: None, commit: None, path: None }
}

#[test]
fn slug_replaces_non_alphanumerics() {
    assert_eq!(slug("release/v1.2"), "release-v1-2");
    assert_eq!(slug("ab9"), "ab9");
}

#[test]
fn short_sha_keeps_twelve_characters() {
    assert_eq!(short_sha("0123456789abcdef"), "0123456789ab");
    assert_eq!(short_sha("abc"), "abc");
}

#[test]
fn reference_label_prefers_commit_then_tag_then_branch() {
    let mut d = dep("u");
    assert_eq!(d.reference_label(), "branch:default");
    assert_eq!(d.ref_token(), "default");
    d.branch = Some("kirkstone".into());
    assert_eq!(d.reference_label(), "branch:kirkstone");
    assert_eq!(d.ref_token(), "b-kirkstone");
    d.tag = Some("yocto-4.0.1".into());
    assert_eq!(d.reference_label(), "tag:yocto-4.0.1");
    assert_eq!(d.ref_token(), "t-yocto-4-0-1");
    d.commit = Some("0123456789abcdef0123".into());
    assert_eq!(d.reference_label(), "commit:0123456789abcdef0123");
    assert_eq!(d.ref_token(), "c-0123456789ab");
}

#[test]
fn subpath_trims_slashes() {
    let mut d = dep("u");
    assert_eq!(d.subpath("meta-foo"), "meta-foo");
    d.path = Some("/sub/meta-bar/".into());
    assert_eq!(d.subpath("meta-foo"), "sub/meta-bar");
}

#[test]
fn names_and_defaults_of_the_manifest() {
    let mut config = empty_config();
    assert_eq!(config.display_name(), "BitForge");
    assert_eq!(config.effective_release(), "scarthgap");
    assert_eq!(config.default_image(), None);
    config.layer = Some(LayerSection { name: "meta-x".into(), priority: 6, compatible: vec![] });
    assert_eq!(config.display_name(), "meta-x");
    config.workspace = Some(WorkspaceSection {
        name: "demo".into(),
        bitbake: "2.8".into(),
        yocto_release: Some(String::new()),
    });
    assert_eq!(config.display_name(), "demo");
    assert_eq!(config.effective_release(), "scarthgap");
    config.workspace.as_mut().unwrap().yocto_release = Some("kirkstone".into());
    assert_eq!(config.effective_release(), "kirkstone");
    config.default = Some(DefaultSection { image: String::new() });
    assert_eq!(config.default_image(), None);
    config.default = Some(DefaultSection { image: "core-image-minimal".into() });
    assert_eq!(config.default_image().as_deref(), Some("core-image-minimal"));
    assert_eq!(default_bitbake_version(), "2.8");
}

#[test]
fn server_section_defaults() {
    let config = empty_config();
    let s = config.server_section();
    assert_eq!(s.host, "0.0.0.0");
    assert_eq!(s.port, 0);
    assert_eq!(s.shutdown_grace_secs, 20);
    assert_eq!(s.activity_timeout, 3);
    assert!(s.http1_keep_alive);
    assert_eq!(s.http2_keep_alive_secs, None);
    let d = ServerSection::default();
    assert_eq!(d.activity_timeout, 3);
}

#[test]
fn validate_reports_conflicting_urls() {
    let mut config = empty_config();
    let mut layers = SortedMap::new();
    layers.insert("a".to_string(), dep("https://x/one.git"));
    layers.insert("b".to_string(), dep(""));
    config.dependency.insert("one".to_string(), layers);
    assert!(config.validate().is_ok());
    assert_eq!(config.dependency_giturl("one").as_deref(), Some("https://x/one.git"));
    assert_eq!(config.dependency_giturl("two"), None);
    let mut other = SortedMap::new();
    other.insert("a".to_string(), dep("https://x/a.git"));
    other.insert("b".to_string(), dep("https://x/b.git"));
    config.dependency.insert("two".to_string(), other);
    let error = config.validate().unwrap_err();
    assert_eq!(error.message(), "dependency 'two' maps to multiple git URLs; give one a distinct name");
}

#[test]
fn disabled_and_presence() {
    let mut config = empty_config();
    config.disabled.push("layers/x".into());
    assert!(config.is_disabled("layers/x"));
    assert!(!config.is_disabled("layers/y"));
    assert!(BitForgeConfig::ensure_present_in(true).is_ok());
    let error = BitForgeConfig::ensure_present_in(false).unwrap_err();
    assert!(matches!(error, ConfigError::NotFound));
    assert_eq!(
        error.message(),
        "No BitForge project config found in the directory run `BitForge --init`"
    );
    assert_eq!(BitForgeConfig::path_in("/p"), "/p/BitForge.toml");
}
