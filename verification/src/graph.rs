//! BitBake's task dependency graph (`task-depends.dot`): the tasks it
//! names, the recipes they belong to, and the edges between recipes.

use vstd::prelude::*;

use crate::build_state::TaskRow;
use crate::sorted_map::SortedMap;
use crate::text::{
    chars_of, index_of, last_index_of, split, split_exec, starts_with, starts_with_exec, string_of,
    trim_ws, trim_ws_exec, views,
};

verus! {

// ---------------------------------------------------------------------------
// Lines of a DOT file
// ---------------------------------------------------------------------------

/// The text between the first two double quotes of `v`.
pub open spec fn quoted_spec(v: Seq<char>) -> Option<Seq<char>> {
    let s = index_of(v, "\""@);
    if s < 0 {
        None
    } else {
        let rest = v.skip(s + 1);
        let e = index_of(rest, "\""@);
        if e < 0 {
            None
        } else {
            Some(rest.take(e))
        }
    }
}

fn quoted_chars(v: &Vec<char>) -> (r: Option<Vec<char>>)
    ensures
        match r {
            Some(x) => quoted_spec(v@) == Some(x@),
            None => quoted_spec(v@) is None,
        },
{
    let quote = chars_of("\"");
    proof {
        reveal_strlit("\"");
    }
    let start = match crate::text::find(v, &quote) {
        Some(i) => i,
        None => {
            return None;
        },
    };
    proof {
        crate::text::lemma_index_of(v@, quote@);
    }
    let n = v.len();
    assert(start < n);
    let rest = crate::text::slice_chars(v, start + 1, n);
    assert(rest@ =~= v@.skip(start + 1));
    let end = match crate::text::find(&rest, &quote) {
        Some(i) => i,
        None => {
            return None;
        },
    };
    proof {
        crate::text::lemma_index_of(rest@, quote@);
    }
    let inner = crate::text::slice_chars(&rest, 0, end);
    assert(inner@ =~= rest@.take(end as int));
    Some(inner)
}

/// The text between the first two double quotes of `value`.
pub fn extract_quoted(value: &str) -> (r: Option<String>)
    ensures
        crate::text::opt_view(r) == quoted_spec(value@),
{
    let chars = chars_of(value);
    match quoted_chars(&chars) {
        Some(x) => Some(string_of(&x)),
        None => None,
    }
}

/// The recipe of a task `RECIPE.do_TASK`: what precedes the last `.do_`.
pub open spec fn recipe_of_spec(task: Seq<char>) -> Seq<char> {
    let i = last_index_of(task, ".do_"@);
    if i < 0 {
        task
    } else {
        task.take(i)
    }
}

/// The recipe of the task `R.do_T` is `R`, for any recipe name `R` and
/// any task name `T` that holds no `.do_` of its own.
pub proof fn law_recipe_of_task_name(recipe: Seq<char>, task: Seq<char>)
    requires
        forall|j: int| !crate::text::matches_at(task, ".do_"@, j),
    ensures
        recipe_of_spec(recipe + ".do_"@ + task) == recipe,
{
    reveal_strlit(".do_");
    let pat = ".do_"@;
    let s = recipe + pat + task;
    let n = recipe.len() as int;
    assert(s.subrange(n, n + 4) =~= pat);
    assert(crate::text::matches_at(s, pat, n));
    assert forall|j: int| n < j implies !crate::text::matches_at(s, pat, j) by {
        if crate::text::matches_at(s, pat, j) {
            assert(s.subrange(j, j + 4)[0] == s[j]);
            if j < n + 4 {
                assert(s[j] == pat[j - n]);
            } else {
                assert(task.subrange(j - n - 4, j - n) =~= s.subrange(j, j + 4));
                assert(crate::text::matches_at(task, pat, j - n - 4));
            }
        }
    }
    crate::text::lemma_last_index_of(s, pat);
    assert(s.take(n) =~= recipe);
}

/// The recipe a task belongs to.
pub fn recipe_of(task: &str) -> (r: String)
    ensures
        r@ == recipe_of_spec(task@),
{
    let chars = chars_of(task);
    let pat = chars_of(".do_");
    match crate::text::rfind(&chars, &pat) {
        Some(i) => {
            proof {
                crate::text::lemma_last_index_of(chars@, pat@);
            }
            let head = crate::text::slice_chars(&chars, 0, i);
            assert(head@ =~= chars@.take(i as int));
            string_of(&head)
        },
        None => String::from_str(task),
    }
}

/// The recipe a task belongs to (as shown in the recipe tree).
pub fn recipe_of_task(task: &str) -> (r: String)
    ensures
        r@ == recipe_of_spec(task@),
{
    recipe_of(task)
}

/// An edge line `"A" -> "B"`: the quoted names on either side of `->`.
pub open spec fn dot_edge(line: Seq<char>) -> Option<(Seq<char>, Seq<char>)> {
    let l = trim_ws(line);
    let a = index_of(l, "->"@);
    if a < 0 {
        None
    } else {
        match (quoted_spec(l.take(a)), quoted_spec(l.skip(a + 2))) {
            (Some(x), Some(y)) => Some((x, y)),
            _ => None,
        }
    }
}

/// A node line `"A" [...]`: a trimmed line that starts with a quote and
/// has no `->`.
pub open spec fn dot_node(line: Seq<char>) -> Option<Seq<char>> {
    let l = trim_ws(line);
    if index_of(l, "->"@) >= 0 || !starts_with(l, "\""@) {
        None
    } else {
        quoted_spec(l)
    }
}

pub fn parse_dot_edge(line: &str) -> (r: Option<(String, String)>)
    ensures
        match r {
            Some((a, b)) => dot_edge(line@) == Some((a@, b@)),
            None => dot_edge(line@) is None,
        },
{
    let chars = chars_of(line);
    let l = trim_ws_exec(&chars);
    let arrow = chars_of("->");
    proof {
        reveal_strlit("->");
    }
    let a = match crate::text::find(&l, &arrow) {
        Some(i) => i,
        None => {
            return None;
        },
    };
    proof {
        crate::text::lemma_index_of(l@, arrow@);
    }
    let n = l.len();
    assert(a + 2 <= n);
    let left = crate::text::slice_chars(&l, 0, a);
    let right = crate::text::slice_chars(&l, a + 2, n);
    assert(left@ =~= l@.take(a as int));
    assert(right@ =~= l@.skip(a + 2));
    match (quoted_chars(&left), quoted_chars(&right)) {
        (Some(x), Some(y)) => Some((string_of(&x), string_of(&y))),
        _ => None,
    }
}

pub fn parse_dot_node(line: &str) -> (r: Option<String>)
    ensures
        crate::text::opt_view(r) == dot_node(line@),
{
    let chars = chars_of(line);
    let l = trim_ws_exec(&chars);
    let arrow = chars_of("->");
    let quote = chars_of("\"");
    if crate::text::find(&l, &arrow).is_some() || !starts_with_exec(&l, &quote) {
        return None;
    }
    match quoted_chars(&l) {
        Some(x) => Some(string_of(&x)),
        None => None,
    }
}

// ---------------------------------------------------------------------------
// Recipes and their edges
// ---------------------------------------------------------------------------

/// Line `line` names recipe `k` at one end of an edge.
pub open spec fn mentions(line: Seq<char>, k: Seq<char>) -> bool {
    match dot_edge(line) {
        Some((s, d)) => recipe_of_spec(s) == k || recipe_of_spec(d) == k,
        None => false,
    }
}

/// Line `line` is an edge from a task of `a` to a task of `b`.
pub open spec fn links(line: Seq<char>, a: Seq<char>, b: Seq<char>) -> bool {
    match dot_edge(line) {
        Some((s, d)) => recipe_of_spec(s) == a && recipe_of_spec(d) == b,
        None => false,
    }
}

/// Line `line` names task `t`: at an end of an edge, or as a node.
pub open spec fn names_task(line: Seq<char>, t: Seq<char>) -> bool {
    match dot_edge(line) {
        Some((s, d)) => s == t || d == t,
        None => dot_node(line) == Some(t),
    }
}

/// Some of the first `n` lines mentions recipe `k`.
pub open spec fn mentioned(ls: Seq<Seq<char>>, n: int, k: Seq<char>) -> bool {
    exists|i: int| 0 <= i < n && #[trigger] mentions(ls[i], k)
}

/// Some of the first `n` lines links distinct recipes `a` and `b`.
pub open spec fn linked(ls: Seq<Seq<char>>, n: int, a: Seq<char>, b: Seq<char>) -> bool {
    a != b && exists|i: int| 0 <= i < n && #[trigger] links(ls[i], a, b)
}

/// Some of the first `n` lines names task `t`.
pub open spec fn task_named(ls: Seq<Seq<char>>, n: int, t: Seq<char>) -> bool {
    exists|i: int| 0 <= i < n && #[trigger] names_task(ls[i], t)
}

/// The lines of a text (split at `\n`).
pub open spec fn text_lines(text: Seq<char>) -> Seq<Seq<char>> {
    split(text, "\n"@)
}

/// Every inner map is sorted too.
pub open spec fn adj_wf(m: SortedMap<SortedMap<()>>) -> bool {
    &&& m.wf()
    &&& forall|k: Seq<char>| #[trigger] m.get_spec(k) is Some ==> m.get_spec(k)->0.wf()
}

/// `b` is among the successors of `a`.
pub open spec fn has_edge(m: SortedMap<SortedMap<()>>, a: Seq<char>, b: Seq<char>) -> bool {
    m.get_spec(a) is Some && m.get_spec(a)->0.get_spec(b) is Some
}

/// Adds recipes `from` and `to`, and the edge between them unless they are
/// the same; tells whether the edge is new.
fn add_edge(adj: &mut SortedMap<SortedMap<()>>, from: String, to: String) -> (r: bool)
    requires
        adj_wf(*old(adj)),
    ensures
        adj_wf(*final(adj)),
        forall|k: Seq<char>|
            #[trigger] final(adj).get_spec(k) is Some <==> (old(adj).get_spec(k) is Some || k
                == from@ || k == to@),
        forall|a: Seq<char>, b: Seq<char>|
            #[trigger] has_edge(*final(adj), a, b) <==> (has_edge(*old(adj), a, b) || (a == from@
                && b == to@ && from@ != to@)),
        r == (from@ != to@ && !has_edge(*old(adj), from@, to@)),
{
    let ghost start = *adj;
    if adj.get(&from).is_none() {
        adj.insert(from.clone(), SortedMap::new());
    }
    if adj.get(&to).is_none() {
        adj.insert(to.clone(), SortedMap::new());
    }
    let ghost mid = *adj;
    assert(adj_wf(mid));
    assert(forall|a: Seq<char>, b: Seq<char>| has_edge(mid, a, b) <==> has_edge(start, a, b));
    if from == to {
        return false;
    }
    let mut inner = match adj.remove(&from) {
        Some(i) => i,
        None => SortedMap::new(),
    };
    let fresh = inner.get(&to).is_none();
    inner.insert(to, ());
    adj.insert(from, inner);
    assert forall|k: Seq<char>| #[trigger] adj.get_spec(k) is Some implies adj.get_spec(k)->0.wf() by {
        if k != from@ {
            assert(adj.get_spec(k) == mid.get_spec(k));
        }
    }
    fresh
}

/// Recipe `a` to the recipes its tasks depend on, for every recipe the
/// graph mentions.
pub fn parse_recipe_adjacency(contents: &str) -> (r: SortedMap<SortedMap<()>>)
    ensures
        adj_wf(r),
        forall|k: Seq<char>|
            #[trigger] r.get_spec(k) is Some <==> mentioned(
                text_lines(contents@),
                text_lines(contents@).len() as int,
                k,
            ),
        forall|a: Seq<char>, b: Seq<char>|
            #[trigger] has_edge(r, a, b) <==> linked(
                text_lines(contents@),
                text_lines(contents@).len() as int,
                a,
                b,
            ),
{
    let chars = chars_of(contents);
    let nl = chars_of("\n");
    proof {
        reveal_strlit("\n");
    }
    let lines = split_exec(&chars, &nl);
    let ghost ls = views(lines@);
    let mut adj: SortedMap<SortedMap<()>> = SortedMap::new();
    let mut i: usize = 0;
    while i < lines.len()
        invariant
            i <= lines@.len(),
            ls == views(lines@),
            ls == text_lines(contents@),
            adj_wf(adj),
            forall|k: Seq<char>| #[trigger] adj.get_spec(k) is Some <==> mentioned(ls, i as int, k),
            forall|a: Seq<char>, b: Seq<char>|
                #[trigger] has_edge(adj, a, b) <==> linked(ls, i as int, a, b),
        decreases lines@.len() - i,
    {
        assert(ls[i as int] == lines@[i as int]@);
        let line = string_of(&lines[i]);
        let ghost prev = adj;
        match parse_dot_edge(line.as_str()) {
            Some((s, d)) => {
                let from = recipe_of(s.as_str());
                let to = recipe_of(d.as_str());
                let _ = add_edge(&mut adj, from, to);
                assert forall|k: Seq<char>| #[trigger] adj.get_spec(k) is Some <==> mentioned(ls, i + 1, k) by {
                    if mentions(ls[i as int], k) {
                    }
                    if mentioned(ls, i + 1, k) && !mentioned(ls, i as int, k) {
                        let j = choose|j: int| 0 <= j < i + 1 && #[trigger] mentions(ls[j], k);
                        assert(j == i);
                    }
                }
                assert forall|a: Seq<char>, b: Seq<char>| #[trigger] has_edge(adj, a, b) <==> linked(ls, i + 1, a, b) by {
                    if links(ls[i as int], a, b) {
                    }
                    if linked(ls, i + 1, a, b) && !linked(ls, i as int, a, b) {
                        let j = choose|j: int| 0 <= j < i + 1 && #[trigger] links(ls[j], a, b);
                        assert(j == i);
                    }
                }
            },
            None => {
                assert forall|k: Seq<char>| #[trigger] adj.get_spec(k) is Some <==> mentioned(ls, i + 1, k) by {
                    if mentioned(ls, i + 1, k) && !mentioned(ls, i as int, k) {
                        let j = choose|j: int| 0 <= j < i + 1 && #[trigger] mentions(ls[j], k);
                        assert(j == i);
                    }
                }
                assert forall|a: Seq<char>, b: Seq<char>| #[trigger] has_edge(adj, a, b) <==> linked(ls, i + 1, a, b) by {
                    if linked(ls, i + 1, a, b) && !linked(ls, i as int, a, b) {
                        let j = choose|j: int| 0 <= j < i + 1 && #[trigger] links(ls[j], a, b);
                        assert(j == i);
                    }
                }
            },
        }
        i = i + 1;
    }
    adj
}

// ---------------------------------------------------------------------------
// The graph summary
// ---------------------------------------------------------------------------

/// The trimmed non-blank lines of a text, in order.
pub open spec fn nonblank_lines(lines: Seq<Seq<char>>) -> Seq<Seq<char>>
    decreases lines.len(),
{
    if lines.len() == 0 {
        Seq::empty()
    } else {
        let before = nonblank_lines(lines.drop_last());
        let t = trim_ws(lines.last());
        if t.len() > 0 {
            before.push(t)
        } else {
            before
        }
    }
}

pub open spec fn pair_views(v: Seq<(String, String)>) -> Seq<(Seq<char>, Seq<char>)> {
    v.map_values(|p: (String, String)| (p.0@, p.1@))
}

/// At most this many recipe edges are listed.
pub const EDGE_LIMIT: usize = 5000;

/// What `bitbake -g` reports about an image.
#[derive(Debug)]
pub struct GraphSummary {
    /// How many distinct tasks the graph names.
    pub task_count: usize,
    /// The recipes of `pn-buildlist`.
    pub recipes: Vec<String>,
    /// How many distinct edges join different recipes.
    pub edge_count: usize,
    /// Up to `EDGE_LIMIT` of those edges.
    pub edges: Vec<(String, String)>,
}

/// Reads `task-depends.dot` and `pn-buildlist`.
pub fn parse_dependency_graph(dot: &str, buildlist: &str) -> (r: GraphSummary)
    ensures
        ({
            let ls = text_lines(dot@);
            &&& exists|tasks: Seq<Seq<char>>|
                #![trigger tasks.no_duplicates()]
                tasks.no_duplicates() && tasks.len() == r.task_count && forall|t: Seq<char>|
                    tasks.contains(t) <==> task_named(ls, ls.len() as int, t)
            &&& views_of(r.recipes@) == nonblank_lines(text_lines(buildlist@))
            &&& exists|edges: Seq<(Seq<char>, Seq<char>)>|
                #![trigger edges.no_duplicates()]
                edges.no_duplicates() && edges.len() == r.edge_count && (forall|
                    p: (Seq<char>, Seq<char>),
                | edges.contains(p) <==> linked(ls, ls.len() as int, p.0, p.1)) && pair_views(
                    r.edges@,
                ) == edges.take(
                    if edges.len() < EDGE_LIMIT {
                        edges.len() as int
                    } else {
                        EDGE_LIMIT as int
                    },
                )
        }),
{
    let chars = chars_of(dot);
    let nl = chars_of("\n");
    proof {
        reveal_strlit("\n");
    }
    let lines = split_exec(&chars, &nl);
    let ghost ls = views(lines@);
    let mut adj: SortedMap<SortedMap<()>> = SortedMap::new();
    let mut edges: Vec<(String, String)> = Vec::new();
    let mut nodes: SortedMap<()> = SortedMap::new();
    let mut node_list: Vec<String> = Vec::new();
    let mut i: usize = 0;
    while i < lines.len()
        invariant
            i <= lines@.len(),
            ls == views(lines@),
            ls == text_lines(dot@),
            adj_wf(adj),
            nodes.wf(),
            forall|a: Seq<char>, b: Seq<char>|
                #[trigger] has_edge(adj, a, b) <==> linked(ls, i as int, a, b),
            pair_views(edges@).no_duplicates(),
            forall|p: (Seq<char>, Seq<char>)|
                #[trigger] pair_views(edges@).contains(p) <==> has_edge(adj, p.0, p.1),
            crate::text::string_views(node_list@).no_duplicates(),
            forall|t: Seq<char>|
                #[trigger] crate::text::string_views(node_list@).contains(t) <==> nodes.get_spec(t)
                    is Some,
            forall|t: Seq<char>| #[trigger] nodes.get_spec(t) is Some <==> task_named(ls, i as int, t),
        decreases lines@.len() - i,
    {
        assert(ls[i as int] == lines@[i as int]@);
        let line = string_of(&lines[i]);
        let ghost prev_nodes = nodes;
        let ghost prev_adj = adj;
        match parse_dot_edge(line.as_str()) {
            Some((s, d)) => {
                add_node(&mut nodes, &mut node_list, s.clone());
                add_node(&mut nodes, &mut node_list, d.clone());
                let from = recipe_of(s.as_str());
                let to = recipe_of(d.as_str());
                let pair = (from.clone(), to.clone());
                let ghost before = pair_views(edges@);
                let fresh = add_edge(&mut adj, from, to);
                if fresh {
                    edges.push(pair);
                    assert(pair_views(edges@) =~= before.push((pair.0@, pair.1@)));
                    proof {
                        lemma_push_no_dup(before, (pair.0@, pair.1@));
                    }
                }
                assert forall|p: (Seq<char>, Seq<char>)| #[trigger] pair_views(edges@).contains(p) <==> has_edge(adj, p.0, p.1) by {
                    if fresh {
                        lemma_push_contains(before, (pair.0@, pair.1@), p);
                    }
                    assert(has_edge(adj, p.0, p.1) <==> (has_edge(prev_adj, p.0, p.1) || (p.0 == pair.0@ && p.1 == pair.1@ && pair.0@ != pair.1@)));
                }
            },
            None => {
                match parse_dot_node(line.as_str()) {
                    Some(n) => {
                        add_node(&mut nodes, &mut node_list, n);
                    },
                    None => {},
                }
            },
        }
        assert forall|t: Seq<char>| #[trigger] nodes.get_spec(t) is Some <==> task_named(ls, i + 1, t) by {
            if names_task(ls[i as int], t) {
            }
            if task_named(ls, i + 1, t) && !task_named(ls, i as int, t) {
                let j = choose|j: int| 0 <= j < i + 1 && #[trigger] names_task(ls[j], t);
                assert(j == i);
            }
        }
        assert forall|a: Seq<char>, b: Seq<char>| #[trigger] has_edge(adj, a, b) <==> linked(ls, i + 1, a, b) by {
            if links(ls[i as int], a, b) {
            }
            if linked(ls, i + 1, a, b) && !linked(ls, i as int, a, b) {
                let j = choose|j: int| 0 <= j < i + 1 && #[trigger] links(ls[j], a, b);
                assert(j == i);
            }
        }
        i = i + 1;
    }
    let recipes = nonblank_lines_exec(buildlist);
    let edge_count = edges.len();
    let mut shown: Vec<(String, String)> = Vec::new();
    let mut k: usize = 0;
    let limit = if edge_count < EDGE_LIMIT {
        edge_count
    } else {
        EDGE_LIMIT
    };
    while k < limit
        invariant
            k <= limit <= edges@.len(),
            pair_views(shown@) == pair_views(edges@).take(k as int),
        decreases limit - k,
    {
        let ghost before = pair_views(shown@);
        let a = edges[k].0.clone();
        let b = edges[k].1.clone();
        assert(pair_views(edges@)[k as int] == (a@, b@));
        shown.push((a, b));
        assert(pair_views(shown@) =~= before.push((a@, b@)));
        k = k + 1;
        assert(pair_views(shown@) =~= pair_views(edges@).take(k as int));
    }
    let ghost all_edges = pair_views(edges@);
    let ghost all_tasks = crate::text::string_views(node_list@);
    assert(all_tasks.no_duplicates() && all_tasks.len() == node_list@.len());
    assert(all_edges.no_duplicates() && all_edges.len() == edges@.len());
    GraphSummary { task_count: node_list.len(), recipes, edge_count, edges: shown }
}

proof fn lemma_push_no_dup<A>(s: Seq<A>, x: A)
    requires
        s.no_duplicates(),
        !s.contains(x),
    ensures
        s.push(x).no_duplicates(),
{
    let t = s.push(x);
    assert forall|i: int, j: int| 0 <= i < t.len() && 0 <= j < t.len() && i != j implies t[i] != t[j] by {
        if i < s.len() && j < s.len() {
            assert(t[i] == s[i] && t[j] == s[j]);
        } else if i < s.len() {
            assert(t[i] == s[i]);
            assert(t[j] == x);
        } else if j < s.len() {
            assert(t[j] == s[j]);
            assert(t[i] == x);
        }
    }
}

proof fn lemma_push_contains<A>(s: Seq<A>, x: A, y: A)
    ensures
        s.push(x).contains(y) <==> (s.contains(y) || y == x),
{
    if s.contains(y) {
        let j = choose|j: int| 0 <= j < s.len() && s[j] == y;
        assert(s.push(x)[j] == y);
    }
    if y == x {
        assert(s.push(x)[s.len() as int] == y);
    }
    if s.push(x).contains(y) && y != x {
        let j = choose|j: int| 0 <= j < s.push(x).len() && s.push(x)[j] == y;
        assert(j < s.len());
        assert(s[j] == y);
    }
}

/// Adds a task to the node set, listing it when it is new.
fn add_node(nodes: &mut SortedMap<()>, list: &mut Vec<String>, name: String)
    requires
        old(nodes).wf(),
        crate::text::string_views(old(list)@).no_duplicates(),
        forall|t: Seq<char>|
            #[trigger] crate::text::string_views(old(list)@).contains(t) <==> old(nodes).get_spec(t)
                is Some,
    ensures
        final(nodes).wf(),
        crate::text::string_views(final(list)@).no_duplicates(),
        forall|t: Seq<char>|
            #[trigger] crate::text::string_views(final(list)@).contains(t) <==> final(nodes).get_spec(
                t,
            ) is Some,
        forall|t: Seq<char>|
            #[trigger] final(nodes).get_spec(t) is Some <==> (old(nodes).get_spec(t) is Some || t
                == name@),
{
    if nodes.get(&name).is_none() {
        let ghost before = crate::text::string_views(list@);
        let ghost old_nodes = *nodes;
        list.push(name.clone());
        assert(crate::text::string_views(list@) =~= before.push(name@));
        proof {
            lemma_push_no_dup(before, name@);
        }
        nodes.insert(name, ());
        assert forall|t: Seq<char>| #[trigger] crate::text::string_views(list@).contains(t) <==> nodes.get_spec(t) is Some by {
            lemma_push_contains(before, name@, t);
            if t != name@ {
                assert(nodes.get_spec(t) == old_nodes.get_spec(t));
            }
        }
    }
}

pub open spec fn views_of(v: Seq<String>) -> Seq<Seq<char>> {
    crate::text::string_views(v)
}

/// The trimmed non-blank lines of `text`.
pub fn nonblank_lines_exec(text: &str) -> (r: Vec<String>)
    ensures
        views_of(r@) == nonblank_lines(text_lines(text@)),
{
    let chars = chars_of(text);
    let nl = chars_of("\n");
    proof {
        reveal_strlit("\n");
    }
    let lines = split_exec(&chars, &nl);
    let ghost ls = views(lines@);
    let mut out: Vec<String> = Vec::new();
    let mut i: usize = 0;
    while i < lines.len()
        invariant
            i <= lines@.len(),
            ls == views(lines@),
            ls == text_lines(text@),
            views_of(out@) == nonblank_lines(ls.take(i as int)),
        decreases lines@.len() - i,
    {
        assert(ls.take(i + 1).drop_last() =~= ls.take(i as int));
        assert(ls.take(i + 1).last() == lines@[i as int]@);
        let t = trim_ws_exec(&lines[i]);
        if t.len() > 0 {
            let ghost before = views_of(out@);
            out.push(string_of(&t));
            assert(views_of(out@) =~= before.push(t@));
        }
        i = i + 1;
    }
    assert(ls.take(ls.len() as int) =~= ls);
    out
}

// ---------------------------------------------------------------------------
// The recipe tree
// ---------------------------------------------------------------------------

/// How far a recipe's build got: failed over running over built over cached.
pub open spec fn build_rank_spec(status: Seq<char>) -> u8 {
    if status == "cached"@ {
        1
    } else if status == "built"@ {
        2
    } else if status == "running"@ {
        3
    } else if status == "failed"@ {
        4
    } else {
        0
    }
}

pub fn build_status_rank(status: &str) -> (r: u8)
    ensures
        r == build_rank_spec(status@),
        status@ == "cached"@ ==> r == 1,
        status@ == "built"@ ==> r == 2,
        status@ == "running"@ ==> r == 3,
        status@ == "failed"@ ==> r == 4,
        status@ != "cached"@ && status@ != "built"@ && status@ != "running"@ && status@
            != "failed"@ ==> r == 0,
{
    proof {
        reveal_strlit("cached");
        reveal_strlit("built");
        reveal_strlit("running");
        reveal_strlit("failed");
        assert("built"@ != "cached"@) by {
            assert("built"@.len() != "cached"@.len());
        }
        assert("running"@ != "cached"@) by {
            assert("running"@.len() != "cached"@.len());
        }
        assert("running"@ != "built"@) by {
            assert("running"@.len() != "built"@.len());
        }
        assert("failed"@ != "cached"@) by {
            assert("failed"@[0] != "cached"@[0]);
        }
        assert("failed"@ != "built"@) by {
            assert("failed"@.len() != "built"@.len());
        }
        assert("failed"@ != "running"@) by {
            assert("failed"@.len() != "running"@.len());
        }
    }
    let s = String::from_str(status);
    if crate::text::eq_str(&s, "cached") {
        1
    } else if crate::text::eq_str(&s, "built") {
        2
    } else if crate::text::eq_str(&s, "running") {
        3
    } else if crate::text::eq_str(&s, "failed") {
        4
    } else {
        0
    }
}

/// Recipe to (rank, status), taking the rows in order: a row replaces the
/// recipe's status unless that has a higher rank; rows without a recipe
/// are skipped.
pub open spec fn status_fold(rows: Seq<TaskRow>) -> Map<Seq<char>, (u8, Seq<char>)>
    decreases rows.len(),
{
    if rows.len() == 0 {
        Map::empty()
    } else {
        let m = status_fold(rows.drop_last());
        let r = rows.last();
        if r.recipe@.len() == 0 {
            m
        } else {
            let e = if m.contains_key(r.recipe@) {
                m[r.recipe@]
            } else {
                (0u8, r.status@)
            };
            let rank = build_rank_spec(r.status@);
            m.insert(
                r.recipe@,
                if rank >= e.0 {
                    (rank, r.status@)
                } else {
                    e
                },
            )
        }
    }
}

pub open spec fn ranked_view(m: SortedMap<(u8, String)>) -> Map<Seq<char>, (u8, Seq<char>)> {
    Map::new(|k: Seq<char>| m.get_spec(k) is Some, |k: Seq<char>| entry_view(m.get_spec(k)->0))
}

/// A ranked status as a pair of rank and characters.
pub open spec fn entry_view(e: (u8, String)) -> (u8, Seq<char>) {
    (e.0, e.1@)
}

/// The build status of each recipe: the highest-ranked status of its task
/// rows, taken in order.
pub fn recipe_build_status(rows: &Vec<TaskRow>) -> (r: SortedMap<String>)
    ensures
        r.wf(),
        forall|k: Seq<char>|
            #[trigger] r.get_spec(k) is Some <==> status_fold(rows@).contains_key(k),
        forall|k: Seq<char>|
            r.get_spec(k) is Some ==> (#[trigger] r.get_spec(k))->0@ == status_fold(rows@)[k].1,
{
    let mut ranked: SortedMap<(u8, String)> = SortedMap::new();
    assert(ranked_view(ranked) =~= status_fold(rows@.take(0)));
    let mut i: usize = 0;
    while i < rows.len()
        invariant
            i <= rows@.len(),
            ranked.wf(),
            ranked_view(ranked) == status_fold(rows@.take(i as int)),
        decreases rows@.len() - i,
    {
        assert(rows@.take(i + 1).drop_last() =~= rows@.take(i as int));
        assert(rows@.take(i + 1).last() == rows@[i as int]);
        let row = &rows[i];
        i = i + 1;
        if row.recipe.as_str().unicode_len() == 0 {
            continue;
        }
        let rank = build_status_rank(row.status.as_str());
        let (cur_rank, cur_status) = match ranked.get(&row.recipe) {
            Some(e) => (e.0, e.1.clone()),
            None => (0u8, row.status.clone()),
        };
        let entry = if rank >= cur_rank {
            (rank, row.status.clone())
        } else {
            (cur_rank, cur_status)
        };
        let ghost before = ranked_view(ranked);
        let ghost ev = (entry.0, entry.1@);
        ranked.insert(row.recipe.clone(), entry);
        assert(ranked_view(ranked) =~= before.insert(row.recipe@, ev));
    }
    assert(rows@.take(rows@.len() as int) =~= rows@);
    let mut out: Vec<(String, String)> = Vec::new();
    let mut k: usize = 0;
    while k < ranked.entries.len()
        invariant
            k <= ranked.entries@.len(),
            out@.len() == k,
            forall|j: int| 0 <= j < k ==> (#[trigger] out@[j]).0 == ranked.entries@[j].0 && out@[j].1 == status_part(ranked.entries@[j]),
        decreases ranked.entries@.len() - k,
    {
        let (_, st) = &ranked.entries[k].1;
        out.push((ranked.entries[k].0.clone(), st.clone()));
        k = k + 1;
    }
    let result = SortedMap { entries: out };
    proof {
        assert forall|a: int, b: int| 0 <= a < b < result.entries@.len() implies seq_less_keys(result.entries@, a, b) by {
            assert(result.entries@[a].0 == ranked.entries@[a].0);
            assert(result.entries@[b].0 == ranked.entries@[b].0);
        }
        lemma_lookup_projection(ranked.entries@, result.entries@);
    }
    result
}

pub open spec fn rank_status(e: (u8, String)) -> String {
    e.1
}

/// The status of a ranked entry.
pub open spec fn status_part(e: (String, (u8, String))) -> String {
    let (_, (_, st)) = e;
    st
}

spec fn seq_less_keys(s: Seq<(String, String)>, a: int, b: int) -> bool {
    crate::order::seq_less(s[a].0@, s[b].0@)
}

proof fn lemma_lookup_projection(src: Seq<(String, (u8, String))>, dst: Seq<(String, String)>)
    requires
        src.len() == dst.len(),
        forall|j: int| 0 <= j < src.len() ==> (#[trigger] dst[j]).0 == src[j].0 && dst[j].1 == status_part(src[j]),
    ensures
        forall|k: Seq<char>|
            #![trigger crate::table::lookup(dst, k)]
            match crate::table::lookup(src, k) {
                Some(e) => crate::table::lookup(dst, k) == Some(rank_status(e)),
                None => crate::table::lookup(dst, k) is None,
            },
    decreases src.len(),
{
    if src.len() > 0 {
        lemma_lookup_projection(src.drop_last(), dst.drop_last());
        let n = src.len() - 1;
        assert(dst.last() == dst[n]);
        assert(src.last() == src[n]);
        assert(dst[n].0 == src[n].0 && dst[n].1 == status_part(src[n]));
        assert(status_part(src[n]) == rank_status(src[n].1));
        assert forall|k: Seq<char>| #![trigger crate::table::lookup(dst, k)]
            match crate::table::lookup(src, k) {
                Some(e) => crate::table::lookup(dst, k) == Some(rank_status(e)),
                None => crate::table::lookup(dst, k) is None,
            } by {
            assert(crate::table::lookup(dst.drop_last(), k) == crate::table::lookup(dst.drop_last(), k));
        }
    }
}

/// The status shown for a recipe: its build status, else `dirty` when the
/// rebuild plan says it must be built, else `cached` when it says it need
/// not, else nothing.
pub open spec fn recipe_status(
    name: Seq<char>,
    dirty: Seq<Seq<char>>,
    clean: Seq<Seq<char>>,
    build_status: SortedMap<String>,
) -> Seq<char> {
    match build_status.get_spec(name) {
        Some(s) => s@,
        None => if dirty.contains(name) {
            "dirty"@
        } else if clean.contains(name) {
            "cached"@
        } else {
            Seq::empty()
        },
    }
}

/// A recipe's build status wins over the rebuild plan: a recipe with a
/// build status shows it, whatever the plan says; one without shows `dirty`
/// when the plan must build it, else `cached` when the plan keeps it, else
/// nothing.
pub proof fn law_build_status_wins(
    name: Seq<char>,
    dirty: Seq<Seq<char>>,
    clean: Seq<Seq<char>>,
    build_status: SortedMap<String>,
)
    ensures
        build_status.get_spec(name) matches Some(s) ==> recipe_status(
            name,
            dirty,
            clean,
            build_status,
        ) == s@,
        build_status.get_spec(name) is None && dirty.contains(name) ==> recipe_status(
            name,
            dirty,
            clean,
            build_status,
        ) == "dirty"@,
        build_status.get_spec(name) is None && !dirty.contains(name) && clean.contains(name)
            ==> recipe_status(name, dirty, clean, build_status) == "cached"@,
        build_status.get_spec(name) is None && !dirty.contains(name) && !clean.contains(name)
            ==> recipe_status(name, dirty, clean, build_status).len() == 0,
{
}

/// A recipe still to build (or being built).
pub open spec fn counts_dirty(status: Seq<char>) -> bool {
    status == "dirty"@ || status == "built"@ || status == "running"@
}

/// How many statuses satisfy `p`.
pub open spec fn count_where(statuses: Seq<Seq<char>>, p: spec_fn(Seq<char>) -> bool) -> nat
    decreases statuses.len(),
{
    if statuses.len() == 0 {
        0
    } else {
        count_where(statuses.drop_last(), p) + if p(statuses.last()) {
            1nat
        } else {
            0nat
        }
    }
}

/// One recipe of the tree.
#[derive(Debug)]
pub struct RecipeNode {
    pub name: String,
    pub deps: Vec<String>,
    pub status: String,
    pub layer: String,
}

/// The recipe tree of an image.
#[derive(Debug)]
pub struct RecipeTree {
    pub root: String,
    pub recipes: Vec<RecipeNode>,
    pub total: usize,
    pub dirty_count: u64,
    pub clean_count: u64,
}

pub open spec fn node_statuses(v: Seq<RecipeNode>) -> Seq<Seq<char>> {
    v.map_values(|n: RecipeNode| n.status@)
}

/// The recipe tree: every recipe of the adjacency (in order) with its
/// dependencies, status and layer, and the counts of recipes to build and
/// of cached ones.
pub fn assemble_recipe_tree(
    image: &str,
    adjacency: &SortedMap<SortedMap<()>>,
    dirty: &Vec<String>,
    clean: &Vec<String>,
    build_status: &SortedMap<String>,
    recipe_layers: &crate::table::Table<String>,
) -> (r: RecipeTree)
    requires
        build_status.wf(),
    ensures
        r.root@ == image@,
        r.total == adjacency.entries@.len(),
        r.recipes@.len() == adjacency.entries@.len(),
        forall|i: int|
            0 <= i < r.recipes@.len() ==> {
                let n = #[trigger] r.recipes@[i];
                let name = adjacency.entries@[i].0@;
                &&& n.name@ == name
                &&& views_of(n.deps@) == adjacency.entries@[i].1.keys()
                &&& n.status@ == recipe_status(
                    name,
                    views_of(dirty@),
                    views_of(clean@),
                    *build_status,
                )
                &&& (build_status.get_spec(name) matches Some(s) ==> n.status@ == s@)
                &&& (build_status.get_spec(name) is None && views_of(dirty@).contains(name)
                    ==> n.status@ == "dirty"@)
                &&& (build_status.get_spec(name) is None && !views_of(dirty@).contains(name)
                    && views_of(clean@).contains(name) ==> n.status@ == "cached"@)
                &&& (build_status.get_spec(name) is None && !views_of(dirty@).contains(name)
                    && !views_of(clean@).contains(name) ==> n.status@.len() == 0)
                &&& n.layer@ == match recipe_layers.get_spec(name) {
                    Some(l) => l@,
                    None => Seq::empty(),
                }
            },
        r.dirty_count == count_where(node_statuses(r.recipes@), |s: Seq<char>| counts_dirty(s)),
        r.clean_count == count_where(node_statuses(r.recipes@), |s: Seq<char>| s == "cached"@),
{
    let mut recipes: Vec<RecipeNode> = Vec::new();
    let mut dirty_count: u64 = 0;
    let mut clean_count: u64 = 0;
    let mut i: usize = 0;
    while i < adjacency.entries.len()
        invariant
            i <= adjacency.entries@.len(),
            build_status.wf(),
            recipes@.len() == i,
            forall|j: int|
                0 <= j < i ==> {
                    let n = #[trigger] recipes@[j];
                    let name = adjacency.entries@[j].0@;
                    &&& n.name@ == name
                    &&& views_of(n.deps@) == adjacency.entries@[j].1.keys()
                    &&& n.status@ == recipe_status(
                        name,
                        views_of(dirty@),
                        views_of(clean@),
                        *build_status,
                    )
                    &&& n.layer@ == match recipe_layers.get_spec(name) {
                        Some(l) => l@,
                        None => Seq::empty(),
                    }
                },
            dirty_count == count_where(node_statuses(recipes@), |s: Seq<char>| counts_dirty(s)),
            clean_count == count_where(node_statuses(recipes@), |s: Seq<char>| s == "cached"@),
            dirty_count <= i,
            clean_count <= i,
        decreases adjacency.entries@.len() - i,
    {
        let name = &adjacency.entries[i].0;
        let status = match build_status.get(name) {
            Some(s) => s.clone(),
            None => if crate::text::contains_str(dirty, name.as_str()) {
                String::from_str("dirty")
            } else if crate::text::contains_str(clean, name.as_str()) {
                String::from_str("cached")
            } else {
                String::new()
            },
        };
        let inner = &adjacency.entries[i].1;
        let mut deps: Vec<String> = Vec::new();
        let mut k: usize = 0;
        while k < inner.entries.len()
            invariant
                k <= inner.entries@.len(),
                views_of(deps@) == inner.keys().take(k as int),
            decreases inner.entries@.len() - k,
        {
            let ghost before = views_of(deps@);
            let key = inner.entries[k].0.clone();
            assert(inner.keys()[k as int] == key@);
            deps.push(key);
            assert(views_of(deps@) =~= before.push(key@));
            k = k + 1;
            assert(views_of(deps@) =~= inner.keys().take(k as int));
        }
        assert(inner.keys().take(inner.keys().len() as int) =~= inner.keys());
        let layer = match recipe_layers.get(name) {
            Some(l) => l.clone(),
            None => String::new(),
        };
        let is_dirty = crate::text::eq_str(&status, "dirty") || crate::text::eq_str(&status, "built")
            || crate::text::eq_str(&status, "running");
        let is_clean = crate::text::eq_str(&status, "cached");
        let ghost before = recipes@;
        recipes.push(RecipeNode { name: name.clone(), deps, status, layer });
        assert(node_statuses(recipes@).drop_last() =~= node_statuses(before));
        if is_dirty {
            dirty_count = dirty_count + 1;
        }
        if is_clean {
            clean_count = clean_count + 1;
        }
        i = i + 1;
    }
    RecipeTree {
        root: String::from_str(image),
        recipes,
        total: adjacency.entries.len(),
        dirty_count,
        clean_count,
    }
}

// ---------------------------------------------------------------------------
// Packages
// ---------------------------------------------------------------------------

/// The segment starts with an ASCII digit.
pub open spec fn starts_with_digit(s: Seq<char>) -> bool {
    s.len() > 0 && crate::text::is_digit(s[0])
}

/// The index of the first segment that starts with a digit, or the count.
pub open spec fn first_versioned(segs: Seq<Seq<char>>) -> int
    decreases segs.len(),
{
    if segs.len() == 0 {
        0
    } else {
        let r = first_versioned(segs.drop_last());
        if r < segs.len() - 1 {
            r
        } else if starts_with_digit(segs.last()) {
            segs.len() - 1
        } else {
            segs.len() as int
        }
    }
}

/// The recipe of a package file `NAME-VERSION...`: the `-`-separated
/// segments before the first that starts with a digit, or the whole stem
/// when the first one does.
pub open spec fn package_recipe_spec(stem: Seq<char>) -> Seq<char> {
    let segs = split(stem, "-"@);
    let k = first_versioned(segs);
    if k == 0 {
        stem
    } else {
        crate::text::join_with(segs.take(k), "-"@)
    }
}

pub fn package_recipe(file_stem: &str) -> (r: String)
    ensures
        r@ == package_recipe_spec(file_stem@),
{
    let chars = chars_of(file_stem);
    let dash = chars_of("-");
    proof {
        reveal_strlit("-");
    }
    let segs = split_exec(&chars, &dash);
    let ghost sv = views(segs@);
    let mut k: usize = 0;
    while k < segs.len() && !(segs[k].len() > 0 && crate::text::is_digit_exec(segs[k][0]))
        invariant
            k <= segs@.len(),
            sv == views(segs@),
            first_versioned(sv.take(k as int)) == k,
        decreases segs@.len() - k,
    {
        assert(sv.take(k + 1).drop_last() =~= sv.take(k as int));
        assert(sv.take(k + 1).last() == segs@[k as int]@);
        k = k + 1;
    }
    proof {
        if k < segs.len() {
            assert(sv.take(k + 1).drop_last() =~= sv.take(k as int));
            assert(sv.take(k + 1).last() == segs@[k as int]@);
            assert(first_versioned(sv.take(k + 1)) == k);
            lemma_first_versioned_prefix(sv, k + 1);
        } else {
            assert(sv.take(k as int) =~= sv);
        }
    }
    if k == 0 {
        return String::from_str(file_stem);
    }
    let mut parts: Vec<Vec<char>> = Vec::new();
    let mut j: usize = 0;
    while j < k
        invariant
            j <= k <= segs@.len(),
            views(parts@) == sv.take(j as int),
            sv == views(segs@),
        decreases k - j,
    {
        let ghost before = views(parts@);
        let piece = crate::text::slice_chars(&segs[j], 0, segs[j].len());
        assert(piece@ =~= segs@[j as int]@);
        assert(sv[j as int] == segs@[j as int]@);
        parts.push(piece);
        assert(views(parts@) =~= before.push(piece@));
        j = j + 1;
        assert(views(parts@) =~= sv.take(j as int));
    }
    let joined = crate::text::join_chars(&parts, &dash);
    string_of(&joined)
}

proof fn lemma_first_versioned_prefix(segs: Seq<Seq<char>>, n: int)
    requires
        0 < n <= segs.len(),
        first_versioned(segs.take(n)) < n,
    ensures
        first_versioned(segs) == first_versioned(segs.take(n)),
    decreases segs.len() - n,
{
    if n < segs.len() {
        assert(segs.take(n + 1).drop_last() =~= segs.take(n));
        lemma_first_versioned_prefix(segs, n + 1);
    } else {
        assert(segs.take(n) =~= segs);
    }
}

} // verus!
