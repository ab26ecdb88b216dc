use bitforge::config::{BitForgeConfig, LayerReference, ServerSection};
use bitforge::server::{
    annotate_layout,
    activity_timeout_message, apply_project_update, cache_entries, cache_scan_due, cache_totals,
    check_wks_size, choose_wks_target, own_project_layers, parse_dependency_action, parse_kib, parse_meminfo, server_url,
    ActionError, DependencyCommand, LayoutError, ServerSettings, WKS_SIZE_LIMIT,
};
use bitforge::sorted_map::SortedMap;

fn empty_config() -> BitForgeConfig {
    BitForgeConfig {
        workspace: None,
        layer: None,
        build: None,
        default: None,
        server: None,
        layers: vec![],
        dependency: SortedMap::new(),
        disabled: vec![],
        source_path: String::new(),
    }
}

#[test]
fn settings() {
    let d = ServerSettings::default();
    assert_eq!(d.host, "0.0.0.0");
    assert_eq!(d.activity_timeout_secs, 180);
    let section = ServerSection {
        host: "127.0.0.1".into(),
        port: 8080,
        shutdown_grace_secs: 5,
        activity_timeout: 10,
        http1_keep_alive: false,
        http2_keep_alive_secs: Some(30),
    };
    let s = ServerSettings::from_section(&section);
    assert_eq!(s.activity_timeout_secs, 600);
    assert_eq!(s.port, 8080);
    assert_eq!(s.http2_keep_alive_secs, Some(30));
    assert_eq!(server_url(true, "0.0.0.0:8080", 8080), "http://localhost:8080");
    assert_eq!(server_url(false, "127.0.0.1:9000", 9000), "http://127.0.0.1:9000");
}

#[test]
fn timeout_messages_round_up_minutes() {
    assert_eq!(
        activity_timeout_message("plan", 180),
        "TIMEOUT: activity 'plan' did not finish within 3 min. Add `activity_timeout = <minutes>` under [server] in BitForge.toml to wait longer."
    );
    assert!(activity_timeout_message("plan", 181).contains("within 4 min"));
    assert!(activity_timeout_message("plan", 0).contains("within 0 min"));
}

#[test]
fn memory_figures() {
    assert_eq!(parse_kib("   16384 kB"), 16384 * 1024);
    assert_eq!(parse_kib(" x kB"), 0);
    assert_eq!(parse_kib(""), 0);
    let m = parse_meminfo(
        "MemTotal:       16000 kB\nMemFree: 1 kB\nMemAvailable:   8000 kB\nSwapTotal: 0 kB\nSwapFree: 2 kB\nMemTotal: 3 kB\n",
    );
    assert_eq!(m.total, 3 * 1024);
    assert_eq!(m.available, 8000 * 1024);
    assert_eq!(m.swap_total, 0);
    assert_eq!(m.swap_free, 2048);
}

#[test]
fn cache_view() {
    let entries = cache_entries();
    assert_eq!(entries.len(), 4);
    assert_eq!(entries[1].path, "build/sstate-cache");
    let t = cache_totals(&vec![1, 2, 3, 4]);
    assert_eq!((t.total, t.downloads, t.cache), (10, 1, 5));
    assert_eq!(cache_scan_due(None, 100, false), (true, true));
    assert_eq!(cache_scan_due(Some(90), 100, false), (false, false));
    assert_eq!(cache_scan_due(Some(10), 100, false), (true, true));
    assert_eq!(cache_scan_due(Some(10), 100, true), (false, true));
    assert_eq!(cache_scan_due(Some(i64::MIN), i64::MAX, false), (true, true));
}

#[test]
fn dependency_actions() {
    let c = parse_dependency_action("add", Some("https://x".into()), None, None).unwrap();
    assert!(matches!(&c, DependencyCommand::Add(s) if s == "https://x"));
    assert_eq!(c.task_label(), "git: add dependency · https://x");
    assert_eq!(c.task_key(), "dep-add:https://x");
    let c = parse_dependency_action("delink", None, None, Some("layers/a".into())).unwrap();
    assert_eq!(c.task_label(), "dependency delink: layers/a");
    assert_eq!(c.task_key(), "dep-delink:layers/a");
    let e = parse_dependency_action("add", None, None, None).unwrap_err();
    assert_eq!(e.message(), "spec required");
    let e = parse_dependency_action("remove", None, None, Some("x".into())).unwrap_err();
    assert!(matches!(e, ActionError::TargetRequired));
    let e = parse_dependency_action("zap", None, None, None).unwrap_err();
    assert_eq!(e.message(), "unknown action 'zap'");
}

#[test]
fn project_update() {
    let mut config = empty_config();
    apply_project_update(&mut config, Some("core-image-x".into()), Some("kirkstone".into()));
    assert_eq!(config.default.as_ref().unwrap().image, "core-image-x");
    let w = config.workspace.as_ref().unwrap();
    assert_eq!(w.yocto_release.as_deref(), Some("kirkstone"));
    assert_eq!(w.name, "");
    assert_eq!(w.bitbake, "");
    apply_project_update(&mut config, None, None);
    assert_eq!(config.default.as_ref().unwrap().image, "core-image-x");
}

#[test]
fn wks_targets() {
    let own = vec![
        ("meta-a".to_string(), "/p/layers/meta-a".to_string()),
        ("meta-b".to_string(), "/p/layers/meta-b".to_string()),
    ];
    assert_eq!(
        choose_wks_target(Some("meta-b"), &own, None, "img", "/p").unwrap(),
        "/p/layers/meta-b/wic/img.wks"
    );
    let e = choose_wks_target(Some("meta-z"), &own, None, "img", "/p").unwrap_err();
    assert!(matches!(e, LayoutError::UnknownTargetLayer));
    assert_eq!(
        choose_wks_target(None, &own, Some("/p/layers/meta-b/wic/custom.wks"), "img", "/p").unwrap(),
        "/p/layers/meta-b/wic/custom.wks"
    );
    assert_eq!(
        choose_wks_target(None, &own, Some("/p/layers/meta-bx/x.wks"), "img", "/p").unwrap(),
        "/p/layers/meta-a/wic/img.wks"
    );
    let e = choose_wks_target(None, &vec![], None, "img", "/p").unwrap_err();
    assert_eq!(e.message(), "no project layer to save into");
    let outside = vec![("meta-o".to_string(), "/elsewhere/meta-o".to_string())];
    let e = choose_wks_target(None, &outside, None, "img", "/p").unwrap_err();
    assert_eq!(e.message(), "refusing to write outside the project");
}

#[test]
fn layout_annotation_lists_own_layers() {
    let own = vec![
        ("meta-a".to_string(), "/p/layers/meta-a".to_string()),
        ("meta-b".to_string(), "/p/layers/meta-b".to_string()),
    ];
    let inside = annotate_layout(&own, Some("/p/layers/meta-b/wic/img.wks"));
    assert!(inside.editable_in_place);
    assert_eq!(inside.project_layers, vec!["meta-a".to_string(), "meta-b".to_string()]);
    assert_eq!(inside.default_layer, Some("meta-a".to_string()));
    let outside = annotate_layout(&own, Some("/p/layers/meta-ab/wic/img.wks"));
    assert!(!outside.editable_in_place);
    let none = annotate_layout(&vec![], None);
    assert!(!none.editable_in_place);
    assert!(none.project_layers.is_empty());
    assert_eq!(none.default_layer, None);
}

#[test]
fn oversized_wks_message() {
    assert_eq!(LayoutError::TooLarge.message(), "wks content too large");
    assert_eq!(WKS_SIZE_LIMIT, 1024 * 1024);
}

#[test]
fn wks_size_limit_is_one_mebibyte() {
    assert!(check_wks_size(0).is_ok());
    assert!(check_wks_size(1_048_576).is_ok());
    assert!(matches!(check_wks_size(1_048_577), Err(LayoutError::TooLarge)));
}

#[test]
fn own_layers_lie_under_the_project() {
    let mut config = empty_config();
    config.layers = vec![
        LayerReference { name: "meta-a".into(), path: "layers/meta-a".into(), priority: 10 },
        LayerReference { name: "meta-abs".into(), path: "/srv/meta-abs".into(), priority: 5 },
    ];
    assert_eq!(
        own_project_layers(&config, "/p"),
        vec![
            ("meta-a".to_string(), "/p/layers/meta-a".to_string()),
            ("meta-abs".to_string(), "/srv/meta-abs".to_string()),
        ]
    );
    assert!(own_project_layers(&empty_config(), "/p").is_empty());
}
