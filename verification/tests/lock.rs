use bitforge::config::{BitForgeConfig, LayerDependency};
use bitforge::lock::{checkout_ref, dependency_layer_paths, shown_commit, LockData, LockManager, LockedLayer};
use bitforge::records::{remote_head_ref, remote_tracking_ref, worktree_path, worktree_ref_name, GitRef};
use bitforge::scaffold::cleanup_targets;
use bitforge::sorted_map::SortedMap;

fn dependency(url: &str, commit: Option<&str>) -> LayerDependency {
    LayerDependency {
        giturl: url.to_string(),
        branch: None,
        tag: None,
        commit: commit.map(str::to_string),
        path: None,
    }
}

fn locked(commit: &str) -> LockedLayer {
    LockedLayer {
        giturl: "https://example.com/repo".to_string(),
        reference: String::new(),
        commit: commit.to_string(),
        worktree: String::new(),
    }
}

fn config_with(repos: &[(&str, &[&str])]) -> BitForgeConfig {
    let mut dependency = SortedMap::new();
    for (repo, layers) in repos {
        let mut inner = SortedMap::new();
        for layer in layers.iter() {
            inner.insert(layer.to_string(), self::dependency("https://example.com/repo", None));
        }
        dependency.insert(repo.to_string(), inner);
    }
    BitForgeConfig {
        workspace: None,
        layer: None,
        build: None,
        default: None,
        server: None,
        layers: vec![],
        dependency,
        disabled: vec![],
        source_path: String::new(),
    }
}

#[test]
fn fresh_lock_data_is_version_one_and_empty() {
    let data = LockData::fresh();
    assert_eq!(data.version, 1);
    assert_eq!(data.layers.len(), 0);
    let manager = LockManager::new("/proj", data);
    assert_eq!(manager.path(), "/proj/BitForge.lock");
}

#[test]
fn pruning_forgets_unconfigured_repositories_and_layers() {
    let mut data = LockData::fresh();
    data.pin(&"poky".to_string(), "meta".to_string(), locked("aaa"));
    data.pin(&"poky".to_string(), "meta-old".to_string(), locked("bbb"));
    data.pin(&"gone".to_string(), "meta-x".to_string(), locked("ccc"));
    let config = config_with(&[("poky", &["meta"])]);
    data.retain_repositories(&config);
    assert!(data.layers.get(&"gone".to_string()).is_none());
    assert_eq!(data.layers.get(&"poky".to_string()).unwrap().len(), 2);
    let layers = config.dependency.get(&"poky".to_string()).unwrap();
    data.retain_layers(&"poky".to_string(), layers);
    let poky = data.layers.get(&"poky".to_string()).unwrap();
    assert_eq!(poky.len(), 1);
    assert_eq!(poky.get(&"meta".to_string()).unwrap().commit, "aaa");
}

#[test]
fn retain_layers_creates_a_missing_repository() {
    let mut data = LockData::fresh();
    let config = config_with(&[("meta-oe", &["meta-python"])]);
    let layers = config.dependency.get(&"meta-oe".to_string()).unwrap();
    data.retain_layers(&"meta-oe".to_string(), layers);
    assert_eq!(data.layers.get(&"meta-oe".to_string()).unwrap().len(), 0);
}

#[test]
fn shown_commit_prefers_the_pin_and_shortens() {
    let pin = locked("0123456789abcdef0123");
    let dep = dependency("u", Some("fedcba9876543210"));
    assert_eq!(shown_commit(Some(&pin), Some(&dep)), Some("0123456789ab".to_string()));
    assert_eq!(shown_commit(None, Some(&dep)), Some("fedcba987654".to_string()));
    assert_eq!(shown_commit(None, Some(&dependency("u", None))), None);
    assert_eq!(shown_commit(None, None), None);
}

#[test]
fn git_reference_names() {
    assert_eq!(worktree_ref_name("kirkstone"), "refs/heads/forge/kirkstone");
    assert_eq!(remote_tracking_ref("main"), "refs/remotes/origin/main");
    assert_eq!(remote_head_ref("scarthgap"), "refs/heads/scarthgap");
    assert_eq!(worktree_path("/p/layers/poky", "abc"), "/p/layers/poky/.forge/abc");
}

#[test]
fn cleanup_removes_a_created_directory_whole() {
    assert_eq!(cleanup_targets("/tmp/new", true), vec!["/tmp/new".to_string()]);
    let generated = cleanup_targets("/tmp/old", false);
    assert_eq!(generated.len(), 7);
    assert_eq!(generated[0], "/tmp/old/BitForge.toml");
    assert_eq!(generated[6], "/tmp/old/layers");
}

#[test]
fn progress_is_in_whole_percent() {
    assert_eq!(bitforge::records::progress_percent(1, 3), Some(33));
    assert_eq!(bitforge::records::progress_percent(3, 3), Some(100));
    assert_eq!(bitforge::records::progress_percent(0, 0), None);
}

fn branch_layer(branch: &str) -> LayerDependency {
    LayerDependency {
        giturl: "https://example.com/repo".to_string(),
        branch: Some(branch.to_string()),
        tag: None,
        commit: None,
        path: None,
    }
}

#[test]
fn pinned_layers_are_checked_out_at_their_commit() {
    let layer = branch_layer("scarthgap");
    let url = "https://example.com/repo";
    let pin = LockedLayer::for_layer(url, &layer, "abc123".to_string(), "ForgeSource/layers/repo".to_string());
    assert_eq!(pin.giturl, url);
    assert_eq!(pin.reference, layer.reference_label());
    assert_eq!(pin.commit, "abc123");
    assert_eq!(checkout_ref(Some(&pin), &layer, url), Some(GitRef::Commit("abc123".to_string())));
    let moved = branch_layer("styhead");
    assert_eq!(checkout_ref(Some(&pin), &moved, url), Some(GitRef::Branch("styhead".to_string())));
    assert_eq!(
        checkout_ref(Some(&pin), &layer, "https://example.com/other"),
        Some(GitRef::Branch("scarthgap".to_string()))
    );
    assert_eq!(checkout_ref(None, &layer, url), Some(GitRef::Branch("scarthgap".to_string())));
    let unpinned = LockedLayer::for_layer(url, &layer, String::new(), String::new());
    assert_eq!(checkout_ref(Some(&unpinned), &layer, url), Some(GitRef::Branch("scarthgap".to_string())));
}

#[test]
fn dependency_layer_paths_follow_the_pinned_worktrees() {
    let config = config_with(&[("poky", &["meta", "meta-poky"]), ("oe", &["meta-oe"])]);
    let mut data = LockData::fresh();
    let mut pin = locked("aaa");
    pin.worktree = "ForgeSource/layers/poky/.forge/scarthgap".to_string();
    data.pin(&"poky".to_string(), "meta-poky".to_string(), pin);
    let mut bare = locked("bbb");
    bare.worktree = String::new();
    data.pin(&"oe".to_string(), "meta-oe".to_string(), bare);
    let paths = dependency_layer_paths(&config, &data);
    assert_eq!(paths.len(), 1);
    assert_eq!(paths[0], "ForgeSource/layers/poky/.forge/scarthgap/meta-poky");
    assert!(dependency_layer_paths(&config, &LockData::fresh()).is_empty());
}
