use bitforge::config::{BitForgeConfig, LayerDependency, WorkspaceSection};
use bitforge::dependency::{
    alias_candidates, alias_slug, allocate_gitname, apply_ref, collection_from_layer_conf,
    derive_dependency_name_from_url, guard_duplicate_collections, is_ref_spec, layer_git_ref,
    parse_dependency_spec, run_dependency_add, run_dependency_delink, run_dependency_relink,
    run_dependency_remove, DependencyError,
};
use bitforge::lock::{LockData, LockedLayer};
use bitforge::records::GitRef;
use bitforge::sorted_map::SortedMap;

fn config_with_release(release: &str) -> BitForgeConfig {
    BitForgeConfig {
        workspace: Some(WorkspaceSection {
            name: "demo".into(),
            bitbake: "2.8".into(),
            yocto_release: Some(release.into()),
        }),
        layer: None,
        build: None,
        default: None,
        server: None,
        layers: vec![],
        dependency: SortedMap::new(),
        disabled: vec![],
        source_path: String::new(),
    }
}

fn dep(url: &str) -> LayerDependency {
    LayerDependency { giturl: url.to_string(), branch: None, tag: None, commit: None, path: None }
}

#[test]
fn names_come_from_the_last_url_segment() {
    assert_eq!(derive_dependency_name_from_url("https://github.com/org/meta-foo.git/"), "meta-foo");
    assert_eq!(derive_dependency_name_from_url("git@github.com:org/meta-bar.git"), "meta-bar");
    assert_eq!(derive_dependency_name_from_url("poky"), "poky");
}

#[test]
fn reference_specs() {
    assert!(is_ref_spec("b:main"));
    assert!(is_ref_spec("t:v1"));
    assert!(is_ref_spec("c:abc"));
    assert!(!is_ref_spec("x:abc"));
    assert!(!is_ref_spec("b:"));
    assert!(!is_ref_spec("main"));
}

#[test]
fn apply_ref_sets_one_field_or_fails() {
    let (mut b, mut t, mut c) = (None, None, None);
    apply_ref("t:v2", &mut b, &mut t, &mut c).unwrap();
    assert_eq!((b.clone(), t.clone(), c.clone()), (None, Some("v2".to_string()), None));
    let e = apply_ref("main", &mut b, &mut t, &mut c).unwrap_err();
    assert_eq!(e.message(), "expected `@b|c|t:value` in ref 'main'");
    let e = apply_ref("b:", &mut b, &mut t, &mut c).unwrap_err();
    assert_eq!(e.message(), "missing ref value in 'b:'");
    let e = apply_ref("z:1", &mut b, &mut t, &mut c).unwrap_err();
    assert_eq!(e.message(), "unknown ref kind 'z', expected b (branch), c (commit) or t (tag)");
    assert_eq!(t.as_deref(), Some("v2"));
}

#[test]
fn parses_a_full_spec() {
    let p = parse_dependency_spec(
        "https://github.com/org/meta-foo.git@b:main#meta-a, sub/meta-b@t:v1 ,,/",
    )
    .unwrap();
    assert_eq!(p.git_url, "https://github.com/org/meta-foo.git");
    assert_eq!(p.source_branch.as_deref(), Some("main"));
    assert_eq!(p.source_tag, None);
    assert_eq!(p.layers.len(), 2);
    assert_eq!(p.layers[0].name, "meta-a");
    assert_eq!(p.layers[0].path, None);
    assert!(!p.layers[0].explicit_ref);
    assert_eq!(p.layers[1].name, "meta-b");
    assert_eq!(p.layers[1].path.as_deref(), Some("sub/meta-b"));
    assert_eq!(p.layers[1].tag.as_deref(), Some("v1"));
    assert!(p.layers[1].explicit_ref);
}

#[test]
fn a_spec_without_layers_names_the_repository() {
    let p = parse_dependency_spec("https://git.yoctoproject.org/poky").unwrap();
    assert_eq!(p.layers.len(), 1);
    assert_eq!(p.layers[0].name, "poky");
    let p = parse_dependency_spec("https://x/meta-y.git@c:deadbeef#  ").unwrap();
    assert_eq!(p.source_commit.as_deref(), Some("deadbeef"));
    assert_eq!(p.layers[0].name, "meta-y");
}

#[test]
fn spec_errors() {
    let e = parse_dependency_spec("#meta-a").unwrap_err();
    assert!(matches!(e, DependencyError::MissingUrl { .. }));
    assert_eq!(e.message(), "missing git url in dependency spec '#meta-a'");
    let e = parse_dependency_spec("https://x/y.git# , ,").unwrap_err();
    assert_eq!(e.message(), "no layers resolved from dependency spec 'https://x/y.git# , ,'");
}

#[test]
fn aliases_use_owner_and_host() {
    let c = alias_candidates(
        "https://github.com/openembedded/meta-openembedded.git",
        "meta-openembedded",
    );
    assert_eq!(
        c,
        vec![
            "openembedded-meta-openembedded".to_string(),
            "github-com-openembedded-meta-openembedded".to_string(),
        ]
    );
    assert_eq!(alias_candidates("poky", "poky"), Vec::<String>::new());
    assert_eq!(alias_slug("git.host:8080"), "git-host-8080");
}

#[test]
fn allocation_avoids_names_of_other_urls() {
    let mut config = config_with_release("scarthgap");
    let mut layers = SortedMap::new();
    layers.insert("meta-foo".to_string(), dep("https://a/x/meta-foo.git"));
    config.dependency.insert("meta-foo".to_string(), layers);
    assert_eq!(allocate_gitname(&config, "https://a/x/meta-foo.git"), "meta-foo");
    assert_eq!(allocate_gitname(&config, "https://b/y/meta-foo.git"), "y-meta-foo");
    for name in ["y-meta-foo", "b-y-meta-foo"] {
        let mut l = SortedMap::new();
        l.insert("l".to_string(), dep("https://elsewhere"));
        config.dependency.insert(name.to_string(), l);
    }
    assert_eq!(allocate_gitname(&config, "https://b/y/meta-foo.git"), "meta-foo-2");
}

#[test]
fn adding_a_dependency_records_its_layers() {
    let mut config = config_with_release("kirkstone");
    let (gitname, added) =
        run_dependency_add(&mut config, "https://x/meta-foo.git#meta-a,sub/meta-b@t:v1").unwrap();
    assert_eq!(gitname, "meta-foo");
    assert_eq!(added, vec!["meta-a".to_string(), "meta-b".to_string()]);
    let repo = config.dependency.get(&"meta-foo".to_string()).unwrap();
    let a = repo.get(&"meta-a".to_string()).unwrap();
    assert_eq!(a.branch.as_deref(), Some("kirkstone"));
    assert_eq!(a.giturl, "https://x/meta-foo.git");
    let b = repo.get(&"meta-b".to_string()).unwrap();
    assert_eq!(b.tag.as_deref(), Some("v1"));
    assert_eq!(b.branch, None);
    assert_eq!(b.path.as_deref(), Some("sub/meta-b"));
}

#[test]
fn a_same_named_layer_at_another_path_is_keyed_by_path() {
    let mut config = config_with_release("kirkstone");
    run_dependency_add(&mut config, "https://x/meta-foo.git#meta-a").unwrap();
    let (_, added) = run_dependency_add(&mut config, "https://x/meta-foo.git#other/meta-a").unwrap();
    assert_eq!(added, vec!["other/meta-a".to_string()]);
}

#[test]
fn adding_reports_an_invalid_manifest() {
    let mut config = config_with_release("kirkstone");
    let mut layers = SortedMap::new();
    layers.insert("a".to_string(), dep("https://one"));
    layers.insert("b".to_string(), dep("https://two"));
    config.dependency.insert("broken".to_string(), layers);
    let e = run_dependency_add(&mut config, "https://x/meta-foo.git").unwrap_err();
    assert!(matches!(e, DependencyError::Invalid(_)));
}

#[test]
fn delink_relink_and_remove() {
    let mut config = config_with_release("kirkstone");
    let paths = vec!["ForgeSource/layers/meta-foo/meta-a".to_string()];
    let e = run_dependency_delink(&mut config, "layers/own", &paths).unwrap_err();
    assert_eq!(e.message(), "'layers/own' is not a dependency layer");
    run_dependency_delink(&mut config, &paths[0], &paths).unwrap();
    run_dependency_delink(&mut config, &paths[0], &paths).unwrap();
    assert_eq!(config.disabled, paths);
    run_dependency_relink(&mut config, &paths[0]);
    assert!(config.disabled.is_empty());

    run_dependency_add(&mut config, "https://x/meta-foo.git#meta-a").unwrap();
    config.disabled = vec![
        "meta-foo".into(),
        "ForgeSource/layers/meta-foo/meta-a".into(),
        "ForgeSource/layers/meta-bar/x".into(),
    ];
    let mut lock = LockData::fresh();
    let mut locked = SortedMap::new();
    locked.insert(
        "meta-a".to_string(),
        LockedLayer {
            giturl: "https://x/meta-foo.git".into(),
            reference: "branch:kirkstone".into(),
            commit: "abc".into(),
            worktree: String::new(),
        },
    );
    lock.layers.insert("meta-foo".to_string(), locked);
    let e = run_dependency_remove(&mut config, &mut lock, "nope").unwrap_err();
    assert_eq!(e.message(), "'nope' is not a tracked dependency");
    run_dependency_remove(&mut config, &mut lock, "meta-foo").unwrap();
    assert!(config.dependency.get(&"meta-foo".to_string()).is_none());
    assert!(lock.layers.get(&"meta-foo".to_string()).is_none());
    assert_eq!(config.disabled, vec!["ForgeSource/layers/meta-bar/x".to_string()]);
}

#[test]
fn layer_conf_collection() {
    let text = "# layer\nBBPATH .= \":${LAYERDIR}\"\nBBFILE_COLLECTIONS += \" core  extra\"\r\n";
    assert_eq!(collection_from_layer_conf(text).as_deref(), Some("core"));
    assert_eq!(collection_from_layer_conf("BBFILE_COLLECTIONS += core"), None);
    assert_eq!(collection_from_layer_conf("nothing here"), None);
}

#[test]
fn duplicate_collections_are_delinked() {
    let mut config = config_with_release("kirkstone");
    let enabled = vec![
        ("layers/own".to_string(), true, Some("own".to_string())),
        ("ForgeSource/layers/poky/meta".to_string(), true, Some("core".to_string())),
        ("ForgeSource/layers/x/skip".to_string(), false, Some("extra".to_string())),
    ];
    let added = vec![
        ("ForgeSource/layers/oe/meta".to_string(), Some("core".to_string())),
        ("ForgeSource/layers/oe/meta-extra".to_string(), Some("extra".to_string())),
    ];
    let conflicts = guard_duplicate_collections(&mut config, &enabled, &added);
    assert_eq!(
        conflicts,
        vec![(
            "ForgeSource/layers/oe/meta".to_string(),
            "core".to_string(),
            "ForgeSource/layers/poky/meta".to_string(),
        )]
    );
    assert_eq!(config.disabled, vec!["ForgeSource/layers/oe/meta".to_string()]);
}

#[test]
fn git_ref_of_a_layer() {
    let mut d = dep("u");
    assert_eq!(layer_git_ref(&d), None);
    d.branch = Some("main".into());
    assert_eq!(layer_git_ref(&d), Some(GitRef::Branch("main".into())));
    d.commit = Some("abc".into());
    assert_eq!(layer_git_ref(&d), Some(GitRef::Commit("abc".into())));
}

#[test]
fn removing_a_new_dependency_restores_the_manifest() {
    let mut config = config_with_release("scarthgap");
    let mut existing = SortedMap::new();
    existing.insert("meta".to_string(), dep("https://git.yoctoproject.org/poky"));
    config.dependency.insert("poky".to_string(), existing);
    let (name, added) = run_dependency_add(&mut config, "https://x/meta-foo.git#meta-a,meta-b").unwrap();
    assert_eq!(name, "meta-foo");
    assert_eq!(added.len(), 2);
    assert_eq!(config.dependency.len(), 2);
    let mut lock = LockData::fresh();
    run_dependency_remove(&mut config, &mut lock, &name).unwrap();
    assert_eq!(config.dependency.len(), 1);
    assert_eq!(config.dependency.entries[0].0, "poky");
    assert_eq!(config.dependency.entries[0].1.entries[0].1.giturl, "https://git.yoctoproject.org/poky");
}
