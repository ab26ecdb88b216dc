use bitforge::records::{describe_status, StatusFlags};
use bitforge::tracking::{ensure_git_project, require_git_project};
use bitforge::workspace::{
    graph_dot_path, graph_slug, join, stats_db_path, wks_destination, ProjectPaths,
};

#[test]
fn join_follows_path_rules() {
    assert_eq!(join("/work", "layers"), "/work/layers");
    assert_eq!(join("/work/", "layers"), "/work/layers");
    assert_eq!(join("", "layers"), "layers");
    assert_eq!(join("/work", "/abs"), "/abs");
}

#[test]
fn project_paths_live_under_forge_source() {
    let paths = ProjectPaths::new("/proj");
    assert_eq!(paths.force_source, "/proj/ForgeSource");
    assert_eq!(paths.layers, "/proj/ForgeSource/layers");
    assert_eq!(paths.build, "/proj/build");
    assert_eq!(paths.stats_db, "/proj/ForgeSource/stats.db");
    assert_eq!(paths.graph_db, "/proj/ForgeSource/graph.db");
    assert_eq!(stats_db_path("/proj"), "/proj/ForgeSource/stats.db");
}

#[test]
fn graph_slug_replaces_unsafe_characters() {
    assert_eq!(graph_slug("core-image minimal.v2"), "core-image_minimal_v2");
    assert_eq!(graph_slug(&graph_slug("a/b c.d")), graph_slug("a/b c.d"));
    assert_eq!(graph_slug("core-image_minimal"), "core-image_minimal");
    assert_eq!(graph_slug("a/b c.d"), "a_b_c_d");
    assert_eq!(graph_slug("bä"), "bä");
}

#[test]
fn graph_dot_path_uses_the_slug() {
    assert_eq!(
        graph_dot_path("/p", "img/x"),
        "/p/ForgeSource/graph/img_x/task-depends.dot"
    );
}

#[test]
fn wks_destination_is_under_wic() {
    assert_eq!(wks_destination("/p/meta-own", "core-image"), "/p/meta-own/wic/core-image.wks");
}

#[test]
fn describe_status_takes_the_first_kind() {
    let flags = |new, deleted, renamed, modified| StatusFlags { new, deleted, renamed, modified };
    assert_eq!(describe_status(flags(true, true, false, false)), "added");
    assert_eq!(describe_status(flags(false, true, true, true)), "deleted");
    assert_eq!(describe_status(flags(false, false, true, true)), "renamed");
    assert_eq!(describe_status(flags(false, false, false, true)), "modified");
    assert_eq!(describe_status(flags(false, false, false, false)), "changed");
}

#[test]
fn untracked_project_is_refused() {
    assert_eq!(require_git_project(true, "/p"), Ok(()));
    let error = require_git_project(false, "/p").unwrap_err();
    assert!(error.contains("No git repository was found at /p."));
    assert!(error.starts_with("BitForge only works inside a git-tracked project."));
    assert!(ensure_git_project(false));
    assert!(!ensure_git_project(true));
}

#[test]
fn cache_signature_covers_configuration_files() {
    assert_eq!(
        bitforge::workspace::signature_files(),
        vec![
            "conf/local.conf".to_string(),
            "conf/bblayers.conf".to_string(),
            "BitForge.toml".to_string(),
            "BitForge.lock".to_string(),
        ]
    );
}

#[test]
fn graph_files_are_kept_per_image() {
    assert_eq!(bitforge::workspace::graph_dir("/p", "core image"), "/p/ForgeSource/graph/core_image");
    let names = bitforge::workspace::graph_artifacts();
    assert_eq!(names.len(), 4);
    assert_eq!(names[0], "task-depends.dot");
    assert_eq!(names[3], "package-depends.dot");
}
