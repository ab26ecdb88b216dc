//! Command-line arguments.
//!
//! Flags are written `--name`, `--name=value` or `--name value`; a value
//! may be wrapped in matching double or single quotes. A separate value is
//! taken only when the next argument does not start with `-`. Positional
//! arguments other than `.` and `./`, and unknown flags, are errors.

use vstd::prelude::*;

use crate::text::{
    index_of, lemma_index_of, matches_at, chars_of, eq_str, join_strings, join_with, opt_view, split_once, split_once_exec,
    starts_with, starts_with_exec, strip_prefix, strip_prefix_exec, string_of, string_views,
};

verus! {

/// The parsed command line.
#[derive(Debug)]
pub struct AppArgs {
    pub working_directory: String,
    pub init_requested: bool,
    pub init_dir_name: Option<String>,
    pub poky_version: Option<String>,
    pub build_requested: bool,
    pub build_target: Option<String>,
    pub version_requested: bool,
    pub update_requested: bool,
    pub beta: bool,
    pub force: bool,
    pub dependency_add_spec: Option<String>,
    pub dependency_remove_name: Option<String>,
    pub add_layer_name: Option<String>,
    pub remove_layer_name: Option<String>,
}

/// What the parser has gathered so far, over character sequences.
pub struct ArgsModel {
    pub init_requested: bool,
    pub init_dir_name: Option<Seq<char>>,
    pub poky_version: Option<Seq<char>>,
    pub build_requested: bool,
    pub build_target: Option<Seq<char>>,
    pub version_requested: bool,
    pub update_requested: bool,
    pub beta: bool,
    pub force: bool,
    pub dependency_add_spec: Option<Seq<char>>,
    pub dependency_remove_name: Option<Seq<char>>,
    pub add_layer_name: Option<Seq<char>>,
    pub remove_layer_name: Option<Seq<char>>,
    /// The rejected arguments, in order.
    pub unknown: Seq<Seq<char>>,
}

/// Nothing seen yet.
pub open spec fn empty_model() -> ArgsModel {
    ArgsModel {
        init_requested: false,
        init_dir_name: None,
        poky_version: None,
        build_requested: false,
        build_target: None,
        version_requested: false,
        update_requested: false,
        beta: false,
        force: false,
        dependency_add_spec: None,
        dependency_remove_name: None,
        add_layer_name: None,
        remove_layer_name: None,
        unknown: Seq::empty(),
    }
}

/// A value without one pair of matching surrounding quotes.
pub open spec fn unquote_spec(v: Seq<char>) -> Seq<char> {
    if v.len() >= 2 && ((v[0] == '"' && v.last() == '"') || (v[0] == '\'' && v.last() == '\'')) {
        v.subrange(1, v.len() - 1)
    } else {
        v
    }
}

/// A flag (without `--`) split at its first `=`, the value unquoted.
pub open spec fn split_flag_spec(flag: Seq<char>) -> (Seq<char>, Option<Seq<char>>) {
    match split_once(flag, "="@) {
        Some((name, value)) => (name, Some(unquote_spec(value))),
        None => (flag, None),
    }
}

/// The argument after `index`, when there is one that does not start with
/// `-`, and the index of the last argument consumed.
pub open spec fn optional_value_spec(args: Seq<Seq<char>>, index: int) -> (Option<Seq<char>>, int) {
    if index + 1 < args.len() && !starts_with(args[index + 1], "-"@) {
        (Some(unquote_spec(args[index + 1])), index + 1)
    } else {
        (None, index)
    }
}

/// A flag's inline value, else the next argument as above.
pub open spec fn value_for_spec(inline: Option<Seq<char>>, args: Seq<Seq<char>>, index: int) -> (
    Option<Seq<char>>,
    int,
) {
    if inline is Some {
        (inline, index)
    } else {
        optional_value_spec(args, index)
    }
}

pub open spec fn or_empty(v: Option<Seq<char>>) -> Seq<char> {
    match v {
        Some(s) => s,
        None => Seq::empty(),
    }
}

/// The effect of the flag `name` at `index`, and the index of the last
/// argument it consumed.
pub open spec fn flag_step(
    args: Seq<Seq<char>>,
    index: int,
    m: ArgsModel,
    name: Seq<char>,
    inline: Option<Seq<char>>,
) -> (ArgsModel, int) {
    let (v, j) = value_for_spec(inline, args, index);
    if name == "init"@ {
        (ArgsModel { init_requested: true, init_dir_name: v, ..m }, j)
    } else if name == "build"@ {
        (ArgsModel { build_requested: true, build_target: v, ..m }, j)
    } else if name == "poky"@ {
        (ArgsModel { poky_version: Some(or_empty(v)), ..m }, j)
    } else if name == "force"@ {
        (ArgsModel { force: true, ..m }, index)
    } else if name == "version"@ {
        (ArgsModel { version_requested: true, ..m }, index)
    } else if name == "update"@ {
        (ArgsModel { update_requested: true, ..m }, index)
    } else if name == "beta"@ {
        (ArgsModel { beta: true, ..m }, index)
    } else if name == "dependency-add"@ {
        (ArgsModel { dependency_add_spec: v, ..m }, j)
    } else if name == "dependency-remove"@ {
        (ArgsModel { dependency_remove_name: v, ..m }, j)
    } else if name == "add-layer"@ {
        (ArgsModel { add_layer_name: v, ..m }, j)
    } else if name == "remove-layer"@ {
        (ArgsModel { remove_layer_name: v, ..m }, j)
    } else {
        (ArgsModel { unknown: m.unknown.push("--"@ + name), ..m }, index)
    }
}

/// Each flag sets what it names and nothing else: `--update` asks for an
/// update, `--beta` for the beta channel, `--build` for a build of its value,
/// and so on; a flag that takes a value keeps the one given inline or after
/// it. Any other flag is rejected and recorded as written.
pub proof fn law_each_flag_sets_its_own_field(
    args: Seq<Seq<char>>,
    index: int,
    m: ArgsModel,
    inline: Option<Seq<char>>,
    name: Seq<char>,
)
    ensures
        flag_step(args, index, m, "init"@, inline) == (ArgsModel { init_requested: true, init_dir_name: value_for_spec(inline, args, index).0, ..m }, value_for_spec(inline, args, index).1),
        flag_step(args, index, m, "build"@, inline) == (ArgsModel { build_requested: true, build_target: value_for_spec(inline, args, index).0, ..m }, value_for_spec(inline, args, index).1),
        flag_step(args, index, m, "poky"@, inline) == (ArgsModel { poky_version: Some(or_empty(value_for_spec(inline, args, index).0)), ..m }, value_for_spec(inline, args, index).1),
        flag_step(args, index, m, "force"@, inline) == (ArgsModel { force: true, ..m }, index),
        flag_step(args, index, m, "version"@, inline) == (ArgsModel { version_requested: true, ..m }, index),
        flag_step(args, index, m, "update"@, inline) == (ArgsModel { update_requested: true, ..m }, index),
        flag_step(args, index, m, "beta"@, inline) == (ArgsModel { beta: true, ..m }, index),
        flag_step(args, index, m, "dependency-add"@, inline) == (ArgsModel { dependency_add_spec: value_for_spec(inline, args, index).0, ..m }, value_for_spec(inline, args, index).1),
        flag_step(args, index, m, "dependency-remove"@, inline) == (ArgsModel { dependency_remove_name: value_for_spec(inline, args, index).0, ..m }, value_for_spec(inline, args, index).1),
        flag_step(args, index, m, "add-layer"@, inline) == (ArgsModel { add_layer_name: value_for_spec(inline, args, index).0, ..m }, value_for_spec(inline, args, index).1),
        flag_step(args, index, m, "remove-layer"@, inline) == (ArgsModel { remove_layer_name: value_for_spec(inline, args, index).0, ..m }, value_for_spec(inline, args, index).1),
        name != "init"@ && name != "build"@ && name != "poky"@ && name != "force"@ && name != "version"@ && name != "update"@ && name != "beta"@ && name != "dependency-add"@ && name != "dependency-remove"@ && name != "add-layer"@ && name != "remove-layer"@ ==> flag_step(args, index, m, name, inline) == (ArgsModel {
            unknown: m.unknown.push("--"@ + name),
            ..m
        }, index),
{
    reveal_strlit("init");
    reveal_strlit("build");
    reveal_strlit("poky");
    reveal_strlit("force");
    reveal_strlit("version");
    reveal_strlit("update");
    reveal_strlit("beta");
    reveal_strlit("dependency-add");
    reveal_strlit("dependency-remove");
    reveal_strlit("add-layer");
    reveal_strlit("remove-layer");
    assert("build"@ != "init"@) by {
        assert("build"@.len() != "init"@.len());
    }
    assert("poky"@ != "init"@) by {
        assert("poky"@[0] != "init"@[0]);
    }
    assert("poky"@ != "build"@) by {
        assert("poky"@.len() != "build"@.len());
    }
    assert("force"@ != "init"@) by {
        assert("force"@.len() != "init"@.len());
    }
    assert("force"@ != "build"@) by {
        assert("force"@[0] != "build"@[0]);
    }
    assert("force"@ != "poky"@) by {
        assert("force"@.len() != "poky"@.len());
    }
    assert("version"@ != "init"@) by {
        assert("version"@.len() != "init"@.len());
    }
    assert("version"@ != "build"@) by {
        assert("version"@.len() != "build"@.len());
    }
    assert("version"@ != "poky"@) by {
        assert("version"@.len() != "poky"@.len());
    }
    assert("version"@ != "force"@) by {
        assert("version"@.len() != "force"@.len());
    }
    assert("update"@ != "init"@) by {
        assert("update"@.len() != "init"@.len());
    }
    assert("update"@ != "build"@) by {
        assert("update"@.len() != "build"@.len());
    }
    assert("update"@ != "poky"@) by {
        assert("update"@.len() != "poky"@.len());
    }
    assert("update"@ != "force"@) by {
        assert("update"@.len() != "force"@.len());
    }
    assert("update"@ != "version"@) by {
        assert("update"@.len() != "version"@.len());
    }
    assert("beta"@ != "init"@) by {
        assert("beta"@[0] != "init"@[0]);
    }
    assert("beta"@ != "build"@) by {
        assert("beta"@.len() != "build"@.len());
    }
    assert("beta"@ != "poky"@) by {
        assert("beta"@[0] != "poky"@[0]);
    }
    assert("beta"@ != "force"@) by {
        assert("beta"@.len() != "force"@.len());
    }
    assert("beta"@ != "version"@) by {
        assert("beta"@.len() != "version"@.len());
    }
    assert("beta"@ != "update"@) by {
        assert("beta"@.len() != "update"@.len());
    }
    assert("dependency-add"@ != "init"@) by {
        assert("dependency-add"@.len() != "init"@.len());
    }
    assert("dependency-add"@ != "build"@) by {
        assert("dependency-add"@.len() != "build"@.len());
    }
    assert("dependency-add"@ != "poky"@) by {
        assert("dependency-add"@.len() != "poky"@.len());
    }
    assert("dependency-add"@ != "force"@) by {
        assert("dependency-add"@.len() != "force"@.len());
    }
    assert("dependency-add"@ != "version"@) by {
        assert("dependency-add"@.len() != "version"@.len());
    }
    assert("dependency-add"@ != "update"@) by {
        assert("dependency-add"@.len() != "update"@.len());
    }
    assert("dependency-add"@ != "beta"@) by {
        assert("dependency-add"@.len() != "beta"@.len());
    }
    assert("dependency-remove"@ != "init"@) by {
        assert("dependency-remove"@.len() != "init"@.len());
    }
    assert("dependency-remove"@ != "build"@) by {
        assert("dependency-remove"@.len() != "build"@.len());
    }
    assert("dependency-remove"@ != "poky"@) by {
        assert("dependency-remove"@.len() != "poky"@.len());
    }
    assert("dependency-remove"@ != "force"@) by {
        assert("dependency-remove"@.len() != "force"@.len());
    }
    assert("dependency-remove"@ != "version"@) by {
        assert("dependency-remove"@.len() != "version"@.len());
    }
    assert("dependency-remove"@ != "update"@) by {
        assert("dependency-remove"@.len() != "update"@.len());
    }
    assert("dependency-remove"@ != "beta"@) by {
        assert("dependency-remove"@.len() != "beta"@.len());
    }
    assert("dependency-remove"@ != "dependency-add"@) by {
        assert("dependency-remove"@.len() != "dependency-add"@.len());
    }
    assert("add-layer"@ != "init"@) by {
        assert("add-layer"@.len() != "init"@.len());
    }
    assert("add-layer"@ != "build"@) by {
        assert("add-layer"@.len() != "build"@.len());
    }
    assert("add-layer"@ != "poky"@) by {
        assert("add-layer"@.len() != "poky"@.len());
    }
    assert("add-layer"@ != "force"@) by {
        assert("add-layer"@.len() != "force"@.len());
    }
    assert("add-layer"@ != "version"@) by {
        assert("add-layer"@.len() != "version"@.len());
    }
    assert("add-layer"@ != "update"@) by {
        assert("add-layer"@.len() != "update"@.len());
    }
    assert("add-layer"@ != "beta"@) by {
        assert("add-layer"@.len() != "beta"@.len());
    }
    assert("add-layer"@ != "dependency-add"@) by {
        assert("add-layer"@.len() != "dependency-add"@.len());
    }
    assert("add-layer"@ != "dependency-remove"@) by {
        assert("add-layer"@.len() != "dependency-remove"@.len());
    }
    assert("remove-layer"@ != "init"@) by {
        assert("remove-layer"@.len() != "init"@.len());
    }
    assert("remove-layer"@ != "build"@) by {
        assert("remove-layer"@.len() != "build"@.len());
    }
    assert("remove-layer"@ != "poky"@) by {
        assert("remove-layer"@.len() != "poky"@.len());
    }
    assert("remove-layer"@ != "force"@) by {
        assert("remove-layer"@.len() != "force"@.len());
    }
    assert("remove-layer"@ != "version"@) by {
        assert("remove-layer"@.len() != "version"@.len());
    }
    assert("remove-layer"@ != "update"@) by {
        assert("remove-layer"@.len() != "update"@.len());
    }
    assert("remove-layer"@ != "beta"@) by {
        assert("remove-layer"@.len() != "beta"@.len());
    }
    assert("remove-layer"@ != "dependency-add"@) by {
        assert("remove-layer"@.len() != "dependency-add"@.len());
    }
    assert("remove-layer"@ != "dependency-remove"@) by {
        assert("remove-layer"@.len() != "dependency-remove"@.len());
    }
    assert("remove-layer"@ != "add-layer"@) by {
        assert("remove-layer"@.len() != "add-layer"@.len());
    }
}

/// The effect of the argument at `index`, and the index of the last
/// argument consumed.
pub open spec fn arg_step(args: Seq<Seq<char>>, index: int, m: ArgsModel) -> (ArgsModel, int) {
    let a = args[index];
    match strip_prefix(a, "--"@) {
        Some(flag) => {
            let (name, inline) = split_flag_spec(flag);
            flag_step(args, index, m, name, inline)
        },
        None => if a == "."@ || a == "./"@ {
            (m, index)
        } else {
            (ArgsModel { unknown: m.unknown.push(a), ..m }, index)
        },
    }
}

/// The model after the arguments from `index` on.
pub open spec fn parse_run(args: Seq<Seq<char>>, index: int, m: ArgsModel) -> ArgsModel
    decreases args.len() - index,
{
    if index < 0 || index >= args.len() {
        m
    } else {
        let (m2, j) = arg_step(args, index, m);
        if j < index {
            m2
        } else {
            parse_run(args, j + 1, m2)
        }
    }
}

/// The model of a whole command line.
pub open spec fn parse_spec(args: Seq<Seq<char>>) -> ArgsModel {
    parse_run(args, 0, empty_model())
}

/// The error for rejected arguments.
pub open spec fn unknown_message(unknown: Seq<Seq<char>>) -> Seq<char> {
    "unknown argument(s): "@ + join_with(unknown, ", "@)
}

impl AppArgs {
    /// The parsed fields agree with `m`.
    pub open spec fn agrees(&self, m: ArgsModel) -> bool {
        &&& self.init_requested == m.init_requested
        &&& opt_view(self.init_dir_name) == m.init_dir_name
        &&& opt_view(self.poky_version) == m.poky_version
        &&& self.build_requested == m.build_requested
        &&& opt_view(self.build_target) == m.build_target
        &&& self.version_requested == m.version_requested
        &&& self.update_requested == m.update_requested
        &&& self.beta == m.beta
        &&& self.force == m.force
        &&& opt_view(self.dependency_add_spec) == m.dependency_add_spec
        &&& opt_view(self.dependency_remove_name) == m.dependency_remove_name
        &&& opt_view(self.add_layer_name) == m.add_layer_name
        &&& opt_view(self.remove_layer_name) == m.remove_layer_name
    }

    /// Parses the arguments after the program name; `working_directory` is
    /// the directory BitForge was started in.
    pub fn parse_from(arguments: Vec<String>, working_directory: String) -> (r: Result<
        AppArgs,
        String,
    >)
        ensures
            ({
                let m = parse_spec(string_views(arguments@));
                match r {
                    Ok(a) => {
                        &&& m.unknown.len() == 0
                        &&& a.agrees(m)
                        &&& a.working_directory@ == working_directory@
                    },
                    Err(e) => m.unknown.len() > 0 && e@ == unknown_message(m.unknown),
                }
            }),
    {
        let ghost args = string_views(arguments@);
        let mut st = AppArgs {
            working_directory,
            init_requested: false,
            init_dir_name: None,
            poky_version: None,
            build_requested: false,
            build_target: None,
            version_requested: false,
            update_requested: false,
            beta: false,
            force: false,
            dependency_add_spec: None,
            dependency_remove_name: None,
            add_layer_name: None,
            remove_layer_name: None,
        };
        let mut unknown: Vec<String> = Vec::new();
        let dashes = chars_of("--");
        let mut index: usize = 0;
        assert(st.agrees(empty_model()));
        assert(string_views(unknown@) =~= empty_model().unknown);
        while index < arguments.len()
            invariant
                index <= arguments@.len(),
                args == string_views(arguments@),
                dashes@ == "--"@,
                st.working_directory@ == working_directory@,
                parse_spec(args) == parse_run(args, index as int, Self::model_of(&st, string_views(unknown@))),
            decreases arguments@.len() - index,
        {
            let ghost before = Self::model_of(&st, string_views(unknown@));
            let ghost start = index as int;
            let chars = chars_of(arguments[index].as_str());
            assert(args[start] == arguments@[start]@);
            match strip_prefix_exec(&chars, &dashes) {
                None => {
                    let raw = &arguments[index];
                    if !(eq_str(raw, ".") || eq_str(raw, "./")) {
                        unknown.push(raw.clone());
                        assert(string_views(unknown@) =~= before.unknown.push(args[start]));
                    }
                },
                Some(flag_chars) => {
                    let flag = string_of(&flag_chars);
                    let (flag_name, inline_value) = split_flag(flag.as_str());
                    let ghost vf = value_for_spec(opt_view(inline_value), args, start);
                    if eq_str(&flag_name, "init") {
                        st.init_requested = true;
                        st.init_dir_name = value_for(inline_value, &arguments, &mut index);
                    } else if eq_str(&flag_name, "build") {
                        st.build_requested = true;
                        st.build_target = value_for(inline_value, &arguments, &mut index);
                    } else if eq_str(&flag_name, "poky") {
                        let v = value_for(inline_value, &arguments, &mut index);
                        st.poky_version = match v {
                            Some(s) => Some(s),
                            None => Some(String::new()),
                        };
                    } else if eq_str(&flag_name, "force") {
                        st.force = true;
                    } else if eq_str(&flag_name, "version") {
                        st.version_requested = true;
                    } else if eq_str(&flag_name, "update") {
                        st.update_requested = true;
                    } else if eq_str(&flag_name, "beta") {
                        st.beta = true;
                    } else if eq_str(&flag_name, "dependency-add") {
                        st.dependency_add_spec = value_for(inline_value, &arguments, &mut index);
                    } else if eq_str(&flag_name, "dependency-remove") {
                        st.dependency_remove_name = value_for(inline_value, &arguments, &mut index);
                    } else if eq_str(&flag_name, "add-layer") {
                        st.add_layer_name = value_for(inline_value, &arguments, &mut index);
                    } else if eq_str(&flag_name, "remove-layer") {
                        st.remove_layer_name = value_for(inline_value, &arguments, &mut index);
                    } else {
                        let mut item = String::from_str("--");
                        item.append(flag_name.as_str());
                        unknown.push(item);
                        assert(string_views(unknown@) =~= before.unknown.push("--"@ + flag_name@));
                    }
                },
            }
            let ghost after = Self::model_of(&st, string_views(unknown@));
            assert(arg_step(args, start, before) == (after, index as int));
            index = index + 1;
        }
        let ghost fin = Self::model_of(&st, string_views(unknown@));
        assert(parse_spec(args) == fin);
        if unknown.len() > 0 {
            let mut message = String::from_str("unknown argument(s): ");
            let listed = join_strings(&unknown, ", ");
            message.append(listed.as_str());
            return Err(message);
        }
        assert(st.agrees(fin));
        Ok(st)
    }

    /// The model of a partly parsed command line.
    pub open spec fn model_of(st: &AppArgs, unknown: Seq<Seq<char>>) -> ArgsModel {
        ArgsModel {
            init_requested: st.init_requested,
            init_dir_name: opt_view(st.init_dir_name),
            poky_version: opt_view(st.poky_version),
            build_requested: st.build_requested,
            build_target: opt_view(st.build_target),
            version_requested: st.version_requested,
            update_requested: st.update_requested,
            beta: st.beta,
            force: st.force,
            dependency_add_spec: opt_view(st.dependency_add_spec),
            dependency_remove_name: opt_view(st.dependency_remove_name),
            add_layer_name: opt_view(st.add_layer_name),
            remove_layer_name: opt_view(st.remove_layer_name),
            unknown,
        }
    }
}

/// Splits a flag (without `--`) at its first `=` into name and unquoted value.
pub fn split_flag(flag: &str) -> (r: (String, Option<String>))
    ensures
        (r.0@, opt_view(r.1)) == split_flag_spec(flag@),
{
    let chars = chars_of(flag);
    let eq = chars_of("=");
    match split_once_exec(&chars, &eq) {
        Some((name, value)) => {
            let value_text = string_of(&value);
            (string_of(&name), Some(unquote(value_text.as_str())))
        },
        None => (string_of(&chars), None),
    }
}

/// The flag's inline value if it has one, else the next argument when it
/// does not start with `-` (which `index` then moves onto).
pub fn value_for(inline_value: Option<String>, arguments: &Vec<String>, index: &mut usize) -> (r:
    Option<String>)
    requires
        *old(index) < usize::MAX,
    ensures
        (opt_view(r), *final(index) as int) == value_for_spec(
            opt_view(inline_value),
            string_views(arguments@),
            *old(index) as int,
        ),
{
    if inline_value.is_some() {
        return inline_value;
    }
    optional_value(arguments, index)
}

/// The argument after `index`, unquoted, when it does not start with `-`;
/// `index` then moves onto it.
pub fn optional_value(arguments: &Vec<String>, index: &mut usize) -> (r: Option<String>)
    requires
        *old(index) < usize::MAX,
    ensures
        (opt_view(r), *final(index) as int) == optional_value_spec(
            string_views(arguments@),
            *old(index) as int,
        ),
{
    let next = *index + 1;
    if next < arguments.len() {
        let chars = chars_of(arguments[next].as_str());
        let dash = chars_of("-");
        if !starts_with_exec(&chars, &dash) {
            *index = next;
            return Some(unquote(arguments[next].as_str()));
        }
    }
    None
}

/// Removes one pair of matching double or single quotes around `value`.
pub fn unquote(value: &str) -> (r: String)
    ensures
        r@ == unquote_spec(value@),
{
    let characters = chars_of(value);
    let n = characters.len();
    if n >= 2 {
        let first = characters[0];
        let last = characters[n - 1];
        if (first == '"' && last == '"') || (first == '\'' && last == '\'') {
            let mut out = String::new();
            let mut i: usize = 1;
            while i < n - 1
                invariant
                    1 <= i <= n - 1,
                    n == characters@.len(),
                    out@ == characters@.subrange(1, i as int),
                decreases n - 1 - i,
            {
                crate::text::push_char(&mut out, characters[i]);
                i = i + 1;
                assert(out@ =~= characters@.subrange(1, i as int));
            }
            return out;
        }
    }
    string_of(&characters)
}


/// A value wrapped in a pair of matching quotes loses exactly that pair.
pub proof fn law_unquote_strips_matching_quotes(inner: Seq<char>, quote: char)
    requires
        quote == '"' || quote == '\'',
    ensures
        unquote_spec(seq![quote] + inner + seq![quote]) == inner,
{
    let v = seq![quote] + inner + seq![quote];
    assert(v[0] == quote);
    assert(v.last() == quote);
    assert(v.subrange(1, v.len() - 1) =~= inner);
}

/// A value without matching surrounding quotes is kept as it is.
pub proof fn law_unquote_keeps_unquoted(v: Seq<char>)
    requires
        !(v.len() >= 2 && ((v[0] == '"' && v.last() == '"') || (v[0] == '\'' && v.last()
            == '\''))),
    ensures
        unquote_spec(v) == v,
{
}

/// The flags that take a value.
pub open spec fn takes_value(name: Seq<char>) -> bool {
    name == "init"@ || name == "build"@ || name == "poky"@ || name == "dependency-add"@
        || name == "dependency-remove"@ || name == "add-layer"@ || name == "remove-layer"@
}

proof fn lemma_no_equals(name: Seq<char>)
    requires
        !name.contains('='),
    ensures
        index_of(name, "="@) == -1,
{
    reveal_strlit("=");
    lemma_index_of(name, "="@);
    if index_of(name, "="@) >= 0 {
        let r = index_of(name, "="@);
        assert(name.subrange(r, r + 1)[0] == name[r]);
        assert(name[r] == '=');
    }
}

proof fn lemma_first_equals(name: Seq<char>, value: Seq<char>)
    requires
        !name.contains('='),
    ensures
        index_of(name + "="@ + value, "="@) == name.len(),
{
    reveal_strlit("=");
    let s = name + "="@ + value;
    lemma_index_of(s, "="@);
    assert(s.subrange(name.len() as int, name.len() as int + 1) =~= "="@);
    assert(matches_at(s, "="@, name.len() as int));
    let r = index_of(s, "="@);
    if r < name.len() {
        assert(s.subrange(r, r + 1)[0] == s[r]);
        assert(s[r] == name[r]);
    }
}

/// A flag's value may be given inline (`--NAME=VALUE`) or as the next
/// argument (`--NAME VALUE`), for a value that does not start with `-`:
/// both command lines parse the same.
pub proof fn law_inline_and_separate_values_agree(name: Seq<char>, value: Seq<char>)
    requires
        takes_value(name),
        !starts_with(value, "-"@),
    ensures
        parse_spec(seq!["--"@ + name + "="@ + value]) == parse_spec(seq!["--"@ + name, value]),
{
    reveal_strlit("--");
    reveal_strlit("=");
    reveal_strlit("init");
    reveal_strlit("build");
    reveal_strlit("poky");
    reveal_strlit("dependency-add");
    reveal_strlit("dependency-remove");
    reveal_strlit("add-layer");
    reveal_strlit("remove-layer");
    reveal_strlit("force");
    reveal_strlit("version");
    reveal_strlit("update");
    reveal_strlit("beta");
    assert(!name.contains('='));
    let inline_args = seq!["--"@ + name + "="@ + value];
    let separate_args = seq!["--"@ + name, value];
    let a = inline_args[0];
    assert(starts_with(a, "--"@)) by {
        assert(a.take(2) =~= "--"@);
    }
    assert(a.skip(2) =~= name + "="@ + value);
    lemma_first_equals(name, value);
    let flag = name + "="@ + value;
    assert(flag.take(name.len() as int) =~= name);
    assert(flag.skip(name.len() as int + 1) =~= value);
    assert(split_flag_spec(flag) == (name, Some(unquote_spec(value))));
    let b = separate_args[0];
    assert(starts_with(b, "--"@)) by {
        assert(b.take(2) =~= "--"@);
    }
    assert(b.skip(2) =~= name);
    lemma_no_equals(name);
    assert(split_flag_spec(name) == (name, None::<Seq<char>>));
    assert(separate_args[1] == value);
    assert(optional_value_spec(separate_args, 0) == (Some(unquote_spec(value)), 1int));
    let u = Some(unquote_spec(value));
    let first = flag_step(inline_args, 0, empty_model(), name, u);
    let second = flag_step(separate_args, 0, empty_model(), name, None);
    assert(value_for_spec(u, inline_args, 0) == (u, 0int));
    assert(value_for_spec(None, separate_args, 0) == (u, 1int));
    if name == "init"@ || name == "build"@ || name == "poky"@ {
        assert(first.1 == 0 && second.1 == 1);
        assert(first.0 =~= second.0);
    } else {
        assert(name != "force"@ && name != "version"@ && name != "update"@ && name != "beta"@);
        assert(first.1 == 0 && second.1 == 1);
        assert(first.0 =~= second.0);
    }
    assert(arg_step(inline_args, 0, empty_model()) == first);
    assert(arg_step(separate_args, 0, empty_model()) == second);
    assert(parse_run(inline_args, 1, first.0) == first.0);
    assert(parse_run(separate_args, 2, second.0) == second.0);
}
} // verus!
