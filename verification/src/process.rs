//! Decisions taken while BitBake and its helper scripts run: what each
//! output line is, when to stop a run, and what its outcome means.

use vstd::prelude::*;

use crate::server::timeout_message_spec;
use crate::text::{
    chars_of, decimal, signed_decimal, signed_decimal_string, starts_with, starts_with_exec,
    string_of, strip_prefix, strip_prefix_exec, trim_ws, trim_ws_exec,
};
use crate::workspace::{join, path_join, BUILD_DIR, FORGE_SOURCE_DIR};

verus! {

pub const EVENT_PREFIX: &'static str = "BITFORGE_EVENT:";

pub const METADATA_PREFIX: &'static str = "BITFORGE_METADATA:";

pub const BUILDS_DIR: &'static str = "builds";

/// What a line of the build's output is.
#[derive(Debug)]
pub enum BuildLine {
    /// A build event; the payload follows the prefix.
    Event(String),
    /// A metadata line, which a build ignores.
    Metadata,
    /// Ordinary output, logged and written to the build log.
    Output(String),
}

pub fn classify_build_line(line: &str) -> (r: BuildLine)
    ensures
        match strip_prefix(line@, EVENT_PREFIX@) {
            Some(payload) => r matches BuildLine::Event(p) && p@ == payload,
            None => if starts_with(line@, METADATA_PREFIX@) {
                r is Metadata
            } else {
                r matches BuildLine::Output(o) && o@ == line@
            },
        },
{
    let chars = chars_of(line);
    let event = chars_of(EVENT_PREFIX);
    let metadata = chars_of(METADATA_PREFIX);
    match strip_prefix_exec(&chars, &event) {
        Some(payload) => BuildLine::Event(string_of(&payload)),
        None => if starts_with_exec(&chars, &metadata) {
            BuildLine::Metadata
        } else {
            BuildLine::Output(String::from_str(line))
        },
    }
}

/// How a build ended: cancelled when asked to stop, else by the exit status
/// of BitBake (a missing status counts as failure).
pub fn final_build_status(cancelled: bool, cancel_requested: bool, exit_success: Option<bool>) -> (r:
    &'static str)
    ensures
        (cancelled || cancel_requested) ==> r@ == "cancelled"@,
        !(cancelled || cancel_requested) && exit_success == Some(true) ==> r@ == "success"@,
        !(cancelled || cancel_requested) && exit_success != Some(true) ==> r@ == "failed"@,
{
    if cancelled || cancel_requested {
        "cancelled"
    } else {
        match exit_success {
            Some(true) => "success",
            _ => "failed",
        }
    }
}

/// The activity status for a build status: `done` for a success.
pub fn activity_end_status(build_status: &str) -> (r: String)
    ensures
        r@ == if build_status@ == "success"@ {
            "done"@
        } else {
            build_status@
        },
{
    let s = String::from_str(build_status);
    if crate::text::eq_str(&s, "success") {
        String::from_str("done")
    } else {
        s
    }
}

/// What a line of a helper script's output is.
#[derive(Debug)]
pub enum ToolLine {
    /// The result, captured from stdout after the metadata prefix.
    Marker(String),
    /// A non-blank line for the activity log.
    Log,
    /// A blank line.
    Skip,
}

pub fn classify_tool_line(is_stdout: bool, line: &str) -> (r: ToolLine)
    ensures
        is_stdout && strip_prefix(line@, METADATA_PREFIX@) is Some ==> (r matches ToolLine::Marker(m)
            && m@ == strip_prefix(line@, METADATA_PREFIX@)->0),
        !(is_stdout && strip_prefix(line@, METADATA_PREFIX@) is Some) ==> if trim_ws(line@).len()
            > 0 {
            r is Log
        } else {
            r is Skip
        },
{
    let chars = chars_of(line);
    if is_stdout {
        let metadata = chars_of(METADATA_PREFIX);
        if let Some(captured) = strip_prefix_exec(&chars, &metadata) {
            return ToolLine::Marker(string_of(&captured));
        }
    }
    if should_log(line) {
        ToolLine::Log
    } else {
        ToolLine::Skip
    }
}

/// Whether an output line is worth logging: it is not blank.
pub fn should_log(line: &str) -> (r: bool)
    ensures
        r == (trim_ws(line@).len() > 0),
{
    let chars = chars_of(line);
    trim_ws_exec(&chars).len() > 0
}

/// On each tick: stop the process when cancelled or when the activity ran
/// at least `timeout_secs` seconds (0 means no limit); the second value
/// tells whether the time ran out.
pub fn tick(cancel_requested: bool, timeout_secs: u64, elapsed_secs: u64) -> (r: (bool, bool))
    ensures
        r.1 == (timeout_secs != 0 && elapsed_secs >= timeout_secs),
        r.0 == (cancel_requested || r.1),
{
    let timed_out = timeout_secs != 0 && elapsed_secs >= timeout_secs;
    (cancel_requested || timed_out, timed_out)
}

/// The outcome of a helper script run: cancelled, timed out, no result, or
/// the captured result text.
pub fn tool_outcome(
    cancelled: bool,
    timed_out: bool,
    marker: Option<String>,
    action: &str,
    timeout_secs: u64,
) -> (r: Result<String, String>)
    ensures
        cancelled ==> (r matches Err(e) && e@ == "cancelled"@),
        !cancelled && timed_out ==> (r matches Err(e) && e@ == timeout_message_spec(
            action@,
            timeout_secs,
        )),
        !cancelled && !timed_out && marker is None ==> (r matches Err(e) && e@
            == "BitBake produced no result; see the task log for details"@),
        !cancelled && !timed_out && marker is Some ==> r == Ok::<String, String>(marker->0),
{
    if cancelled {
        return Err(String::from_str("cancelled"));
    }
    if timed_out {
        return Err(crate::server::activity_timeout_message(action, timeout_secs));
    }
    match marker {
        Some(m) => Ok(m),
        None => Err(String::from_str("BitBake produced no result; see the task log for details")),
    }
}

/// What `serde_json` makes of `text` when it reads it as a JSON value:
/// `None` when it is not JSON; otherwise the string under `key` when the
/// value is an object with a string there, else `Some(None)`.
pub uninterp spec fn json_string_field(text: Seq<char>, key: Seq<char>) -> Option<Option<Seq<char>>>;

pub open spec fn nested_view(o: Option<Option<String>>) -> Option<Option<Seq<char>>> {
    match o {
        Some(Some(s)) => Some(Some(s@)),
        Some(None) => Some(None),
        None => None,
    }
}

/// Reads `text` with `serde_json::from_str` as a `serde_json::Value` and,
/// when that succeeds, takes `Value::get(key)` and `Value::as_str` of it.
#[verifier::external_body]
fn read_json_string_field(text: &str, key: &str) -> (r: Option<Option<String>>)
    ensures
        nested_view(r) == json_string_field(text@, key@),
{
    match serde_json::from_str::<serde_json::Value>(text) {
        Ok(value) => Some(value.get(key).and_then(|field| field.as_str()).map(|s| s.to_string())),
        Err(_) => None,
    }
}

/// The message when a helper's result is not JSON.
pub open spec fn bad_json_message() -> Seq<char> {
    "failed to parse metadata json"@
}

/// What a helper's outcome becomes once its result text has been read as
/// JSON (`parsed`, as [`read_json_string_field`] gives it for the key
/// `error`): an earlier error stays; text that is not JSON is refused; a
/// string `error` field becomes the error; otherwise the text is the result.
pub fn helper_result(outcome: Result<String, String>, parsed: Option<Option<String>>) -> (r: Result<
    String,
    String,
>)
    ensures
        match outcome {
            Err(e) => r == Err::<String, String>(e),
            Ok(text) => match parsed {
                None => r matches Err(m) && m@ == bad_json_message(),
                Some(Some(e)) => r == Err::<String, String>(e),
                Some(None) => r == Ok::<String, String>(text),
            },
        },
{
    match outcome {
        Err(e) => Err(e),
        Ok(text) => match parsed {
            None => Err(String::from_str("failed to parse metadata json")),
            Some(Some(e)) => Err(e),
            Some(None) => Ok(text),
        },
    }
}

/// The result of a helper script run: as [`tool_outcome`], then the
/// captured text must be JSON, and a string `error` field in it is the
/// error. `Ok` holds the JSON text.
pub fn tool_result(
    cancelled: bool,
    timed_out: bool,
    marker: Option<String>,
    action: &str,
    timeout_secs: u64,
) -> (r: Result<String, String>)
    ensures
        cancelled ==> (r matches Err(e) && e@ == "cancelled"@),
        !cancelled && timed_out ==> (r matches Err(e) && e@ == timeout_message_spec(
            action@,
            timeout_secs,
        )),
        !cancelled && !timed_out && marker is None ==> (r matches Err(e) && e@
            == "BitBake produced no result; see the task log for details"@),
        !cancelled && !timed_out && marker is Some ==> match json_string_field(
            marker->0@,
            "error"@,
        ) {
            None => r matches Err(e) && e@ == bad_json_message(),
            Some(Some(e)) => r matches Err(x) && x@ == e,
            Some(None) => r == Ok::<String, String>(marker->0),
        },
{
    let outcome = tool_outcome(cancelled, timed_out, marker, action, timeout_secs);
    match outcome {
        Ok(text) => {
            let parsed = read_json_string_field(text.as_str(), "error");
            helper_result(Ok(text), parsed)
        },
        Err(e) => Err(e),
    }
}

/// `serde_json` reads `text` as a JSON value (whatever field is then looked
/// up, reading fails only when the text is not JSON).
pub open spec fn reads_as_json(text: Seq<char>) -> bool {
    json_string_field(text, "error"@) is Some
}

/// The cached dependency graph that stands in for a run of `bitbake -g`:
/// the one stored for the project's current state, unless a refresh was
/// asked for or it does not read as JSON.
pub fn cached_graph(refresh: bool, cached: Option<String>) -> (r: Option<String>)
    ensures
        r == (if !refresh && cached is Some && reads_as_json(cached->0@) {
            cached
        } else {
            None::<String>
        }),
{
    if refresh {
        return None;
    }
    match cached {
        Some(text) => {
            if read_json_string_field(text.as_str(), "error").is_some() {
                Some(text)
            } else {
                None
            }
        },
        None => None,
    }
}

/// The outcome of `bitbake -g`: cancelled, timed out, failed, or done.
pub fn graph_outcome(cancelled: bool, timed_out: bool, exit_success: Option<bool>, timeout_secs: u64) -> (r:
    Result<(), String>)
    ensures
        cancelled ==> (r matches Err(e) && e@ == "cancelled"@),
        !cancelled && timed_out ==> (r matches Err(e) && e@ == timeout_message_spec(
            "dependency graph"@,
            timeout_secs,
        )),
        !cancelled && !timed_out && exit_success != Some(true) ==> (r matches Err(e) && e@
            == "`bitbake -g` failed; see the task log for details"@),
        !cancelled && !timed_out && exit_success == Some(true) ==> r is Ok,
{
    if cancelled {
        return Err(String::from_str("cancelled"));
    }
    if timed_out {
        return Err(crate::server::activity_timeout_message("dependency graph", timeout_secs));
    }
    match exit_success {
        Some(true) => Ok(()),
        _ => Err(String::from_str("`bitbake -g` failed; see the task log for details")),
    }
}

// ---------------------------------------------------------------------------
// Paths
// ---------------------------------------------------------------------------

/// The BitBake program of the project.
pub fn bitbake_bin(root: &str) -> (r: String)
    ensures
        r@ == path_join(
            path_join(path_join(path_join(root@, FORGE_SOURCE_DIR@), "bitbake"@), "bin"@),
            "bitbake"@,
        ),
{
    let a = join(root, FORGE_SOURCE_DIR);
    let b = join(a.as_str(), "bitbake");
    let c = join(b.as_str(), "bin");
    join(c.as_str(), "bitbake")
}

/// `parts.join(":")`.
pub open spec fn colon_joined(parts: Seq<Seq<char>>) -> Seq<char> {
    crate::text::join_with(parts, ":"@)
}

/// The `scripts` directory of each layer directory.
pub open spec fn script_dirs(layers: Seq<Seq<char>>) -> Seq<Seq<char>>
    decreases layers.len(),
{
    if layers.len() == 0 {
        Seq::empty()
    } else {
        script_dirs(layers.drop_last()).push(path_join(layers.last(), "scripts"@))
    }
}

/// BitBake's `bin` directory.
pub open spec fn bitbake_bin_dir(root: Seq<char>) -> Seq<char> {
    path_join(path_join(path_join(root, FORGE_SOURCE_DIR@), "bitbake"@), "bin"@)
}

/// The `PATH` BitBake runs with: BitBake's `bin`, the `scripts` directory
/// of each layer that has one, then the inherited `PATH`.
pub fn build_path(root: &str, layers_with_scripts: &Vec<String>, existing: &str) -> (r: String)
    ensures
        r@ == colon_joined(
            seq![bitbake_bin_dir(root@)] + script_dirs(
                crate::text::string_views(layers_with_scripts@),
            ) + seq![existing@],
        ),
{
    let a = join(root, FORGE_SOURCE_DIR);
    let b = join(a.as_str(), "bitbake");
    let bin = join(b.as_str(), "bin");
    let ghost lv = crate::text::string_views(layers_with_scripts@);
    let mut parts: Vec<String> = Vec::new();
    parts.push(bin);
    assert(crate::text::string_views(parts@) =~= seq![bitbake_bin_dir(root@)] + script_dirs(
        lv.take(0),
    ));
    let mut i: usize = 0;
    while i < layers_with_scripts.len()
        invariant
            i <= layers_with_scripts@.len(),
            lv == crate::text::string_views(layers_with_scripts@),
            crate::text::string_views(parts@) == seq![bitbake_bin_dir(root@)] + script_dirs(
                lv.take(i as int),
            ),
        decreases layers_with_scripts@.len() - i,
    {
        let ghost before = crate::text::string_views(parts@);
        let scripts = join(layers_with_scripts[i].as_str(), "scripts");
        assert(lv[i as int] == layers_with_scripts@[i as int]@);
        assert(lv.take(i + 1).drop_last() =~= lv.take(i as int));
        parts.push(scripts);
        assert(crate::text::string_views(parts@) =~= before.push(scripts@));
        i = i + 1;
        assert(crate::text::string_views(parts@) =~= seq![bitbake_bin_dir(root@)] + script_dirs(
            lv.take(i as int),
        ));
    }
    assert(lv.take(lv.len() as int) =~= lv);
    let ghost before = crate::text::string_views(parts@);
    parts.push(String::from_str(existing));
    assert(crate::text::string_views(parts@) =~= before.push(existing@));
    assert(before.push(existing@) =~= seq![bitbake_bin_dir(root@)] + script_dirs(lv) + seq![
        existing@,
    ]);
    crate::text::join_strings(&parts, ":")
}

/// Where the reports of a build started at `started_at` go.
pub fn report_dir(root: &str, started_at: i64) -> (r: String)
    ensures
        r@ == path_join(
            path_join(path_join(root@, FORGE_SOURCE_DIR@), BUILDS_DIR@),
            signed_decimal(started_at as int),
        ),
{
    let a = join(root, FORGE_SOURCE_DIR);
    let b = join(a.as_str(), BUILDS_DIR);
    let stamp = signed_decimal_string(started_at);
    join(b.as_str(), stamp.as_str())
}

/// The build log inside a report directory.
pub fn build_log_path(report_dir: &str) -> (r: String)
    ensures
        r@ == path_join(report_dir@, "build.log"@),
{
    join(report_dir, "build.log")
}

/// A build may start only when none is running; its activity is labelled
/// `BitBake: build · TARGET` and keyed `build:TARGET`.
pub fn plan_build_start(running: bool, target: &str) -> (r: Result<(String, String), String>)
    ensures
        running ==> (r matches Err(e) && e@ == "a build is already running"@),
        !running ==> (r matches Ok((label, key)) && label@ == "BitBake: build · "@ + target@ && key@
            == "build:"@ + target@),
{
    if running {
        return Err(String::from_str("a build is already running"));
    }
    let mut label = String::from_str("BitBake: build · ");
    label.append(target);
    let mut key = String::from_str("build:");
    key.append(target);
    Ok((label, key))
}

/// The note about statistics copied into the report directory, if any.
pub fn stats_note(collected: &Vec<String>) -> (r: Option<String>)
    ensures
        collected@.len() == 0 ==> r is None,
        collected@.len() > 0 ==> (r matches Some(n) && n@ == "Collected stats into report dir: "@
            + crate::text::join_with(crate::text::string_views(collected@), ", "@)),
{
    if collected.len() == 0 {
        return None;
    }
    let mut s = String::from_str("Collected stats into report dir: ");
    let joined = crate::text::join_strings(collected, ", ");
    s.append(joined.as_str());
    Some(s)
}

/// `PREFIX:SUBJECT`, the key of an activity about `subject`.
pub fn activity_key(prefix: &str, subject: &str) -> (r: String)
    ensures
        r@ == prefix@ + ":"@ + subject@,
{
    let mut s = String::from_str(prefix);
    s.append(":");
    s.append(subject);
    s
}


/// What is copied into a build's report directory when it ends, as
/// (source, name inside the report directory): BitBake's build statistics
/// and the build history.
pub fn build_stats_sources(root: &str) -> (r: Vec<(String, String)>)
    ensures
        r@.len() == 2,
        r@[0].0@ == path_join(path_join(path_join(root@, BUILD_DIR@), "tmp"@), "buildstats"@),
        r@[0].1@ == "buildstats"@,
        r@[1].0@ == path_join(path_join(root@, BUILD_DIR@), "buildhistory"@),
        r@[1].1@ == "buildhistory"@,
{
    let build = join(root, BUILD_DIR);
    let tmp = join(build.as_str(), "tmp");
    let mut v: Vec<(String, String)> = Vec::new();
    v.push((join(tmp.as_str(), "buildstats"), String::from_str("buildstats")));
    v.push((join(build.as_str(), "buildhistory"), String::from_str("buildhistory")));
    v
}

} // verus!
