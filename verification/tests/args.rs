use bitforge::args::{optional_value, split_flag, unquote, value_for, AppArgs};

#[test]
fn splits_equals_form_and_unquotes() {
    assert_eq!(split_flag("poky=scarthgap"), ("poky".into(), Some("scarthgap".into())));
    assert_eq!(split_flag("init=\"demo poky\""), ("init".into(), Some("demo poky".into())));
    assert_eq!(split_flag("force"), ("force".into(), None));
}

#[test]
fn space_form_consumes_next_argument() {
    let arguments = vec!["--init".to_string(), "demo poky".to_string()];
    let mut index = 0;
    assert_eq!(optional_value(&arguments, &mut index), Some("demo poky".into()));
    assert_eq!(index, 1);
}

#[test]
fn value_for_prefers_inline_value() {
    let arguments = vec!["--poky".to_string(), "next".to_string()];
    let mut index = 0;
    assert_eq!(
        value_for(Some("scarthgap".into()), &arguments, &mut index),
        Some("scarthgap".into())
    );
    assert_eq!(index, 0);
}

#[test]
fn unquote_strips_matching_quotes_only() {
    assert_eq!(unquote("\"a b\""), "a b");
    assert_eq!(unquote("'a b'"), "a b");
    assert_eq!(unquote("plain"), "plain");
    assert_eq!(unquote("\"unterminated"), "\"unterminated");
}

#[test]
fn unknown_flag_errors() {
    let error = AppArgs::parse_from(vec!["--iniy".into(), "demo".into()], ".".into()).unwrap_err();
    assert!(error.contains("--iniy"), "{error}");
}

#[test]
fn stray_positional_errors() {
    let error = AppArgs::parse_from(vec!["stray".into()], ".".into()).unwrap_err();
    assert!(error.contains("stray"), "{error}");
}

#[test]
fn current_dir_marker_and_known_flags_are_accepted() {
    let args =
        AppArgs::parse_from(vec![".".into(), "--init".into(), "demo".into()], ".".into()).unwrap();
    assert!(args.init_requested);
    assert_eq!(args.init_dir_name.as_deref(), Some("demo"));
}

#[test]
fn unknown_arguments_are_listed_in_order() {
    let error = AppArgs::parse_from(vec!["--iniy".into(), "demo".into()], ".".into()).unwrap_err();
    assert_eq!(error, "unknown argument(s): --iniy, demo");
}

#[test]
fn poky_without_value_is_empty_version() {
    let args = AppArgs::parse_from(vec!["--poky".into(), "--force".into()], "/w".into()).unwrap();
    assert_eq!(args.poky_version.as_deref(), Some(""));
    assert!(args.force);
    assert_eq!(args.working_directory, "/w");
}

#[test]
fn every_flag_is_recognised() {
    let args = AppArgs::parse_from(
        vec![
            "--build=core-image-minimal".into(),
            "--version".into(),
            "--update".into(),
            "--beta".into(),
            "--dependency-add".into(),
            "'https://x/meta-a.git'".into(),
            "--dependency-remove=meta-b".into(),
            "--add-layer".into(),
            "extra".into(),
            "--remove-layer".into(),
            "old".into(),
            "./".into(),
        ],
        ".".into(),
    )
    .unwrap();
    assert!(args.build_requested);
    assert_eq!(args.build_target.as_deref(), Some("core-image-minimal"));
    assert!(args.version_requested && args.update_requested && args.beta);
    assert_eq!(args.dependency_add_spec.as_deref(), Some("https://x/meta-a.git"));
    assert_eq!(args.dependency_remove_name.as_deref(), Some("meta-b"));
    assert_eq!(args.add_layer_name.as_deref(), Some("extra"));
    assert_eq!(args.remove_layer_name.as_deref(), Some("old"));
    assert!(!args.init_requested);
}

#[test]
fn dash_value_is_not_consumed() {
    let arguments = vec!["--build".to_string(), "-x".to_string()];
    let mut index = 0;
    assert_eq!(optional_value(&arguments, &mut index), None);
    assert_eq!(index, 0);
}

#[test]
fn unquote_law_on_concrete_values() {
    assert_eq!(unquote("\"\""), "");
    assert_eq!(unquote("'x\""), "'x\"");
    assert_eq!(unquote("\""), "\"");
}

#[test]
fn inline_and_separate_values_parse_the_same() {
    for flag in ["init", "build", "poky", "dependency-add", "dependency-remove", "add-layer", "remove-layer"] {
        let inline = AppArgs::parse_from(vec![format!("--{flag}='x=y z'")], ".".into()).unwrap();
        let separate = AppArgs::parse_from(vec![format!("--{flag}"), "'x=y z'".into()], ".".into()).unwrap();
        assert_eq!(format!("{inline:?}"), format!("{separate:?}"));
    }
    let args = AppArgs::parse_from(vec!["--build".into(), "'x=y z'".into()], ".".into()).unwrap();
    assert_eq!(args.build_target, Some("x=y z".to_string()));
}
