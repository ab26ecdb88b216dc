use bitforge::release::{
    asset_name, choose_release, is_newer, plan_update, version_key, Release, ReleaseAsset,
    UpdateError, UpdatePlan,
};

fn release(tag: &str, pre: bool, draft: bool, at: &str) -> Release {
    Release {
        tag_name: tag.into(),
        prerelease: pre,
        draft,
        published_at: at.into(),
        assets: vec![ReleaseAsset {
            name: "bitforge-linux-x86_64".into(),
            browser_download_url: format!("https://dl/{tag}"),
        }],
    }
}

#[test]
fn choosing_releases() {
    let rs = vec![
        release("v1.0.0", false, false, "2024-01-01T00:00:00Z"),
        release("v1.2.0", false, true, "2024-06-01T00:00:00Z"),
        release("v1.1.0", false, false, "2024-03-01T00:00:00Z"),
        release("v1.3.0-beta", true, false, "2024-05-01T00:00:00Z"),
    ];
    assert_eq!(choose_release(&rs, false).unwrap().tag_name, "v1.1.0");
    assert_eq!(choose_release(&rs, true).unwrap().tag_name, "v1.3.0-beta");
    assert!(choose_release(&[], true).is_none());
    let only_pre = vec![release("v2.0.0-rc1", true, false, "2024-01-01")];
    assert!(choose_release(&only_pre, false).is_none());
    assert_eq!(choose_release(&only_pre, true).unwrap().tag_name, "v2.0.0-rc1");
}

#[test]
fn equal_dates_keep_the_later_listed_release() {
    let rs = vec![release("a", false, false, "2024"), release("b", false, false, "2024")];
    assert_eq!(choose_release(&rs, false).unwrap().tag_name, "b");
}

#[test]
fn version_keys_and_ordering() {
    assert_eq!(version_key("v1.2.3-beta+5"), vec![1, 2, 3, 0, 5]);
    assert_eq!(version_key("vv2"), vec![2]);
    assert_eq!(version_key(""), vec![0]);
    assert!(is_newer("1.10.0", "1.9.3"));
    assert!(!is_newer("1.9.3", "1.10.0"));
    assert!(!is_newer("1.2.0", "1.2.0"));
    assert!(is_newer("1.2.0.1", "1.2.0"));
}

#[test]
fn asset_names() {
    assert_eq!(asset_name("linux", "x86_64"), "bitforge-linux-x86_64");
    assert_eq!(asset_name("macos", "aarch64"), "bitforge-darwin-aarch64");
    assert_eq!(asset_name("windows", "riscv64"), "bitforge-unknown-unknown");
}

#[test]
fn planning_an_update() {
    let rs = vec![release("v1.1.0", false, false, "2024-03-01")];
    match plan_update(&rs, false, "1.0.0", "bitforge-linux-x86_64", "o/r").unwrap() {
        UpdatePlan::Download { latest, url } => {
            assert_eq!(latest, "1.1.0");
            assert_eq!(url, "https://dl/v1.1.0");
        }
        UpdatePlan::UpToDate => panic!("expected a download"),
    }
    assert!(matches!(
        plan_update(&rs, false, "1.1.0", "bitforge-linux-x86_64", "o/r").unwrap(),
        UpdatePlan::UpToDate
    ));
    let e = plan_update(&rs, false, "1.0.0", "bitforge-darwin-aarch64", "o/r").unwrap_err();
    assert_eq!(e.message(), "release v1.1.0 has no asset 'bitforge-darwin-aarch64'");
    let e = plan_update(&[], false, "1.0.0", "x", "o/r").unwrap_err();
    assert!(matches!(e, UpdateError::NoRelease { .. }));
    assert_eq!(e.message(), "no suitable release found for o/r");
}
