use bitforge::process::{
    activity_end_status, activity_key, bitbake_bin, build_log_path, build_path,
    classify_build_line, classify_tool_line, final_build_status, graph_outcome, plan_build_start,
    report_dir, should_log, stats_note, tick, tool_outcome, tool_result, helper_result, cached_graph,
    BuildLine, ToolLine,
};

#[test]
fn build_lines() {
    assert!(matches!(classify_build_line("BITFORGE_EVENT:<event kind=\"x\"/>"),
        BuildLine::Event(p) if p == "<event kind=\"x\"/>"));
    assert!(matches!(classify_build_line("BITFORGE_METADATA:{}"), BuildLine::Metadata));
    assert!(matches!(classify_build_line("NOTE: hi"), BuildLine::Output(l) if l == "NOTE: hi"));
}

#[test]
fn build_outcomes() {
    assert_eq!(final_build_status(true, false, Some(true)), "cancelled");
    assert_eq!(final_build_status(false, true, Some(true)), "cancelled");
    assert_eq!(final_build_status(false, false, Some(true)), "success");
    assert_eq!(final_build_status(false, false, Some(false)), "failed");
    assert_eq!(final_build_status(false, false, None), "failed");
    assert_eq!(activity_end_status("success"), "done");
    assert_eq!(activity_end_status("failed"), "failed");
}

#[test]
fn tool_lines_and_outcomes() {
    assert!(matches!(classify_tool_line(true, "BITFORGE_METADATA:{\"a\":1}"),
        ToolLine::Marker(m) if m == "{\"a\":1}"));
    assert!(matches!(classify_tool_line(false, "BITFORGE_METADATA:{}"), ToolLine::Log));
    assert!(matches!(classify_tool_line(true, "   "), ToolLine::Skip));
    assert!(should_log(" x "));
    assert!(!should_log("\t"));
    assert_eq!(tool_outcome(true, true, None, "plan", 60), Err("cancelled".to_string()));
    assert_eq!(tool_outcome(false, false, Some("{}".into()), "plan", 60), Ok("{}".to_string()));
    assert_eq!(
        tool_outcome(false, false, None, "plan", 60),
        Err("BitBake produced no result; see the task log for details".to_string())
    );
    assert!(tool_outcome(false, true, None, "plan", 60).unwrap_err().starts_with("TIMEOUT"));
    assert_eq!(graph_outcome(false, false, Some(true), 60), Ok(()));
    assert_eq!(
        graph_outcome(false, false, None, 60),
        Err("`bitbake -g` failed; see the task log for details".to_string())
    );
    assert!(graph_outcome(false, true, Some(true), 60)
        .unwrap_err()
        .contains("activity 'dependency graph'"));
}

#[test]
fn ticks() {
    assert_eq!(tick(false, 0, 1_000_000), (false, false));
    assert_eq!(tick(false, 60, 59), (false, false));
    assert_eq!(tick(false, 60, 60), (true, true));
    assert_eq!(tick(true, 60, 1), (true, false));
}

#[test]
fn paths_and_notes() {
    assert_eq!(bitbake_bin("/p"), "/p/ForgeSource/bitbake/bin/bitbake");
    assert_eq!(
        build_path("/p", &vec!["/p/ForgeSource/layers/poky".to_string()], "/usr/bin:/bin"),
        "/p/ForgeSource/bitbake/bin:/p/ForgeSource/layers/poky/scripts:/usr/bin:/bin"
    );
    assert_eq!(report_dir("/p", 1700000000), "/p/ForgeSource/builds/1700000000");
    assert_eq!(report_dir("/p", -5), "/p/ForgeSource/builds/-5");
    assert_eq!(build_log_path("/r"), "/r/build.log");
    assert_eq!(stats_note(&vec![]), None);
    assert_eq!(
        stats_note(&vec!["buildstats".into(), "buildhistory".into()]).as_deref(),
        Some("Collected stats into report dir: buildstats, buildhistory")
    );
    assert_eq!(plan_build_start(true, "img"), Err("a build is already running".to_string()));
    assert_eq!(
        plan_build_start(false, "img"),
        Ok(("BitBake: build · img".to_string(), "build:img".to_string()))
    );
    assert_eq!(activity_key("deptree", "img"), "deptree:img");
}

#[test]
fn build_statistics_are_collected_from_two_places() {
    let sources = bitforge::process::build_stats_sources("/p");
    assert_eq!(
        sources,
        vec![
            ("/p/build/tmp/buildstats".to_string(), "buildstats".to_string()),
            ("/p/build/buildhistory".to_string(), "buildhistory".to_string()),
        ]
    );
}

#[test]
fn helper_results_read_the_error_field() {
    assert_eq!(
        tool_result(false, false, Some("{\"error\":\"boom\"}".to_string()), "layout", 60),
        Err("boom".to_string())
    );
    assert_eq!(
        tool_result(false, false, Some("not json".to_string()), "layout", 60),
        Err("failed to parse metadata json".to_string())
    );
    let plain = "{\"source_path\":\"/p/x.wks\"}".to_string();
    assert_eq!(tool_result(false, false, Some(plain.clone()), "layout", 60), Ok(plain));
    assert_eq!(
        tool_result(false, false, Some("{\"error\":3}".to_string()), "layout", 60),
        Ok("{\"error\":3}".to_string())
    );
    assert_eq!(tool_result(true, false, Some("{}".to_string()), "layout", 60), Err("cancelled".to_string()));
    assert_eq!(
        tool_result(false, false, None, "layout", 60),
        Err("BitBake produced no result; see the task log for details".to_string())
    );
    assert_eq!(helper_result(Err("earlier".to_string()), None), Err("earlier".to_string()));
    assert_eq!(helper_result(Ok("x".to_string()), Some(None)), Ok("x".to_string()));
}

#[test]
fn cached_graphs_are_used_unless_refreshed_or_unreadable() {
    let graph = "{\"nodes\":[]}".to_string();
    assert_eq!(cached_graph(false, Some(graph.clone())), Some(graph.clone()));
    assert_eq!(cached_graph(true, Some(graph)), None);
    assert_eq!(cached_graph(false, Some("{broken".to_string())), None);
    assert_eq!(cached_graph(false, None), None);
}
