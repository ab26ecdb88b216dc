use bitforge::build_state::TaskRow;
use bitforge::graph::{
    assemble_recipe_tree, build_status_rank, extract_quoted, nonblank_lines_exec, package_recipe,
    parse_dependency_graph, parse_dot_edge, parse_dot_node, parse_recipe_adjacency,
    recipe_build_status, recipe_of, recipe_of_task,
};
use bitforge::table::Table;

const DOT: &str = "digraph depends {\n\"busybox.do_compile\" [label=\"busybox do_compile\"]\n\"busybox.do_compile\" -> \"busybox.do_configure\"\n\"busybox.do_configure\" -> \"glibc.do_populate_sysroot\"\n\"busybox.do_configure\" -> \"glibc.do_populate_sysroot\"\n\"zlib.do_fetch\"\n}\n";

fn row(recipe: &str, task: &str, status: &str) -> TaskRow {
    TaskRow {
        recipe: recipe.into(),
        task: task.into(),
        status: status.into(),
        started_at: None,
        finished_at: None,
        signature: None,
    }
}

#[test]
fn quoted_names_and_recipes() {
    assert_eq!(extract_quoted("x \"a.b\" y \"c\"").as_deref(), Some("a.b"));
    assert_eq!(extract_quoted("\"open"), None);
    assert_eq!(recipe_of("busybox.do_compile"), "busybox");
    assert_eq!(recipe_of("a.do_b.do_c"), "a.do_b");
    assert_eq!(recipe_of_task("plain"), "plain");
}

#[test]
fn dot_lines() {
    assert_eq!(
        parse_dot_edge("  \"a.do_x\" -> \"b.do_y\" ;"),
        Some(("a.do_x".to_string(), "b.do_y".to_string()))
    );
    assert_eq!(parse_dot_edge("\"a\" -> b"), None);
    assert_eq!(parse_dot_node(" \"a.do_x\" [label=\"q\"]").as_deref(), Some("a.do_x"));
    assert_eq!(parse_dot_node("\"a\" -> \"b\""), None);
    assert_eq!(parse_dot_node("digraph {"), None);
}

#[test]
fn recipe_adjacency() {
    let adj = parse_recipe_adjacency(DOT);
    let keys: Vec<String> = adj.entries.iter().map(|e| e.0.clone()).collect();
    assert_eq!(keys, vec!["busybox".to_string(), "glibc".to_string()]);
    let busybox = adj.get(&"busybox".to_string()).unwrap();
    let deps: Vec<String> = busybox.entries.iter().map(|e| e.0.clone()).collect();
    assert_eq!(deps, vec!["glibc".to_string()]);
    assert_eq!(adj.get(&"glibc".to_string()).unwrap().entries.len(), 0);
}

#[test]
fn graph_summary() {
    let s = parse_dependency_graph(DOT, "busybox\n  glibc \n\nzlib\n");
    assert_eq!(s.task_count, 4);
    assert_eq!(s.recipes, vec!["busybox".to_string(), "glibc".to_string(), "zlib".to_string()]);
    assert_eq!(s.edge_count, 1);
    assert_eq!(s.edges, vec![("busybox".to_string(), "glibc".to_string())]);
    assert_eq!(nonblank_lines_exec(" a \r\n\nb"), vec!["a".to_string(), "b".to_string()]);
}

#[test]
fn build_status_of_recipes() {
    assert_eq!(build_status_rank("failed"), 4);
    assert_eq!(build_status_rank("queued"), 0);
    let rows = vec![
        row("busybox", "do_fetch", "built"),
        row("busybox", "do_compile", "running"),
        row("busybox", "do_install", "queued"),
        row("", "do_x", "failed"),
        row("glibc", "do_fetch", "cached"),
    ];
    let status = recipe_build_status(&rows);
    assert_eq!(status.get(&"busybox".to_string()).map(String::as_str), Some("running"));
    assert_eq!(status.get(&"glibc".to_string()).map(String::as_str), Some("cached"));
    assert_eq!(status.len(), 2);
}

#[test]
fn recipe_tree() {
    let adj = parse_recipe_adjacency(DOT);
    let rows = vec![row("glibc", "do_fetch", "built")];
    let status = recipe_build_status(&rows);
    let mut layers = Table::new();
    layers.insert("busybox".to_string(), "meta".to_string());
    let tree = assemble_recipe_tree(
        "core-image-minimal",
        &adj,
        &vec!["busybox".to_string()],
        &vec![],
        &status,
        &layers,
    );
    assert_eq!(tree.root, "core-image-minimal");
    assert_eq!(tree.total, 2);
    assert_eq!(tree.recipes[0].name, "busybox");
    assert_eq!(tree.recipes[0].status, "dirty");
    assert_eq!(tree.recipes[0].layer, "meta");
    assert_eq!(tree.recipes[0].deps, vec!["glibc".to_string()]);
    assert_eq!(tree.recipes[1].status, "built");
    assert_eq!(tree.recipes[1].layer, "");
    assert_eq!(tree.dirty_count, 2);
    assert_eq!(tree.clean_count, 0);
}

#[test]
fn package_recipes() {
    assert_eq!(package_recipe("busybox-1.36.1-r0.core2_64"), "busybox");
    assert_eq!(package_recipe("libfoo-bar-2.0"), "libfoo-bar");
    assert_eq!(package_recipe("1abc-x"), "1abc-x");
    assert_eq!(package_recipe("plain"), "plain");
}
