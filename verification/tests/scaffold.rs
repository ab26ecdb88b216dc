use bitforge::config::{BitForgeConfig, LayerReference, WorkspaceSection};
use bitforge::scaffold::{
    own_layer_manifest, placeholder_recipe, placeholder_recipe_path,
    bitbake_version_for, check_target_empty, derive_layer_name, derive_project_slug,
    ensure_bitbake, gitignore_contents, init_flavor, init_target, layer_directory,
    layer_reference, render_template, run_add_layer, run_remove_layer, sanitize_lowered,
    sanitize_slug, InitError, LayerError,
};
use bitforge::sorted_map::SortedMap;

fn empty_config() -> BitForgeConfig {
    BitForgeConfig {
        workspace: None,
        layer: None,
        build: None,
        default: None,
        server: None,
        layers: vec![],
        dependency: SortedMap::new(),
        disabled: vec![],
        source_path: String::new(),
    }
}

#[test]
fn slugs_are_lower_case_and_dashed() {
    assert_eq!(sanitize_slug("--Hello  World!!"), "hello-world");
    assert_eq!(sanitize_slug("My Project_v2"), "my-project-v2");
    assert_eq!(sanitize_slug(&sanitize_slug("My Project_v2")), "my-project-v2");
    assert_eq!(sanitize_slug("My Project_Name"), "my-project-name");
    assert_eq!(sanitize_slug("  --Demo--  "), "demo");
    assert_eq!(sanitize_slug("a  b"), "a-b");
    assert_eq!(sanitize_slug("***"), "project");
    assert_eq!(sanitize_slug(""), "project");
    assert_eq!(sanitize_lowered("x.y"), "xy");
}

#[test]
fn unicode_letters_are_lower_cased_then_dropped() {
    assert_eq!(sanitize_slug("ÄBC"), "bc");
    assert_eq!(derive_project_slug(None), "project");
    assert_eq!(derive_project_slug(Some("Yocto Build")), "yocto-build");
}

#[test]
fn layer_names_start_with_meta() {
    assert_eq!(derive_layer_name("demo"), "meta-demo");
    assert_eq!(derive_layer_name("meta-demo"), "meta-demo");
    assert_eq!(derive_layer_name(&derive_layer_name("x")), derive_layer_name("x"));
}

#[test]
fn adding_and_removing_layers() {
    let mut config = empty_config();
    assert_eq!(run_add_layer(&mut config, "/p", "Extra Stuff", false).unwrap(), "meta-extra-stuff");
    assert_eq!(config.layers.len(), 1);
    assert_eq!(config.layers[0].path, "layers/meta-extra-stuff");
    assert_eq!(config.layers[0].priority, 6);
    let e = run_add_layer(&mut config, "/p", "extra stuff", false).unwrap_err();
    assert!(matches!(e, LayerError::Exists { .. }));
    assert_eq!(e.message(), "layer 'meta-extra-stuff' already exists");
    let e = run_add_layer(&mut config, "/p", "other", true).unwrap_err();
    assert_eq!(e.message(), "/p/layers/meta-other already exists");
    let removed = run_remove_layer(&mut config, "extra stuff").unwrap();
    assert_eq!(removed.name, "meta-extra-stuff");
    assert!(config.layers.is_empty());
    let e = run_remove_layer(&mut config, "gone").unwrap_err();
    assert_eq!(e.message(), "layer 'gone' is not a workspace layer");
}

#[test]
fn removing_by_exact_name() {
    let mut config = empty_config();
    config.layers.push(LayerReference { name: "odd".into(), path: "layers/odd".into(), priority: 1 });
    config.layers.push(layer_reference("meta-odd"));
    let removed = run_remove_layer(&mut config, "odd").unwrap();
    assert_eq!(removed.path, "layers/odd");
    assert_eq!(config.layers.len(), 1);
    assert_eq!(layer_directory("/p", "meta-x"), "/p/layers/meta-x");
}

#[test]
fn init_decisions() {
    let e = init_target("/base", None, Some("")).unwrap_err();
    assert!(matches!(e, InitError::PokyVersionMissing));
    assert_eq!(e.message(), "`--poky` requires a version, e.g. --poky scarthgap");
    assert_eq!(init_target("/base", Some("demo"), None).unwrap(), "/base/demo");
    assert_eq!(init_target("/base", None, Some("kirkstone")).unwrap(), "/base");
    assert_eq!(check_target_empty("/t", false, false).unwrap(), false);
    assert_eq!(check_target_empty("/t", true, true).unwrap(), true);
    let e = check_target_empty("/t", true, false).unwrap_err();
    assert_eq!(e.message(), "/t is not empty; use --force to initialize anyway");
    let f = init_flavor(Some("kirkstone"));
    assert_eq!(f.base_name, "poky");
    assert_eq!(f.release, "kirkstone");
    assert!(f.is_poky);
    let f = init_flavor(None);
    assert_eq!(f.base_git_url, "https://git.openembedded.org/openembedded-core");
    assert_eq!(f.release, "scarthgap");
    assert_eq!(f.flavor, "openembedded-core");
}

#[test]
fn templates_are_filled_in() {
    let t = "name = \"{{PROJECT_NAME}}\"\nrelease = \"{{RELEASE}}\"\n[[layers]]\nname = \"{{LAYER_NAME}}\"\npath = \"{{LAYER_PATH}}\"\n# {{RELEASE}}\n";
    assert_eq!(
        render_template(t, "demo", "scarthgap", "meta-demo", "layers/meta-demo"),
        "name = \"demo\"\nrelease = \"scarthgap\"\n[[layers]]\nname = \"meta-demo\"\npath = \"layers/meta-demo\"\n# scarthgap\n"
    );
    assert_eq!(gitignore_contents(), "ForgeSource/\nbuild/\n");
}

#[test]
fn bitbake_checkout() {
    let b = ensure_bitbake("/p", "");
    assert_eq!(b.destination, "/p/ForgeSource/bitbake");
    assert_eq!(b.git_dir, "/p/ForgeSource/bitbake/.git");
    assert_eq!(b.version, "2.8");
    assert_eq!(ensure_bitbake("/p", "2.6").version, "2.6");
    let mut config = empty_config();
    assert_eq!(bitbake_version_for(&config), "2.8");
    config.workspace = Some(WorkspaceSection {
        name: "d".into(),
        bitbake: "2.4".into(),
        yocto_release: None,
    });
    assert_eq!(bitbake_version_for(&config), "2.4");
}

#[test]
fn new_layer_manifest_and_placeholder() {
    let manifest = own_layer_manifest("/p/layers/meta-demo", "meta-demo", "scarthgap");
    let layer = manifest.layer.as_ref().unwrap();
    assert_eq!(layer.name, "meta-demo");
    assert_eq!(layer.priority, 6);
    assert_eq!(layer.compatible, vec!["scarthgap".to_string()]);
    assert_eq!(manifest.source_path, "/p/layers/meta-demo/BitForge.toml");
    assert!(manifest.workspace.is_none());
    assert!(manifest.layers.is_empty());
    assert_eq!(
        placeholder_recipe_path("/p/layers/meta-demo"),
        "/p/layers/meta-demo/recipes-example/bitforge-example/bitforge-example_0.1.bb"
    );
    let recipe = placeholder_recipe();
    assert!(recipe.starts_with("SUMMARY = \"BitForge starter placeholder recipe\"\n"));
    assert!(recipe.contains("warn about an unused BBFILE_PATTERN. Replace it"));
    assert!(recipe.ends_with("do_compile[noexec] = \"1\"\ndo_install[noexec] = \"1\"\n"));
}

#[test]
fn init_error_messages() {
    let exists = InitError::ConfigExists { path: "/p/BitForge.toml".to_string() };
    assert_eq!(exists.message(), "/p/BitForge.toml already exists");
    let missing = InitError::ReleaseNotFound {
        release: "nope".to_string(),
        url: "https://git.yoctoproject.org/poky".to_string(),
    };
    assert_eq!(missing.message(), "release 'nope' not found at https://git.yoctoproject.org/poky");
}
