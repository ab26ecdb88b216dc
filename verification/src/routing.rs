//! Requests to the web UI: which handler serves a method and path, and the
//! small values read from paths and query strings.

use vstd::prelude::*;

use crate::text::{
    decimal, is_digit, lemma_decimal_digits, lemma_parse_decimal, chars_of, eq_str, first_word, first_word_exec, join_with, opt_view, parse_i64, parse_i64_spec,
    parse_u64, parse_u64_spec, replace_all, replace_str, split, split_exec, starts_with,
    starts_with_exec, string_of, strip_prefix, strip_prefix_exec, strip_suffix, strip_suffix_exec,
    trim_start_char, trim_start_char_exec, views,
};

verus! {

// ---------------------------------------------------------------------------
// Ids in paths
// ---------------------------------------------------------------------------

/// `/api/tasks/ID`: the activity whose details are asked for.
pub open spec fn task_detail_spec(path: Seq<char>) -> Option<u64> {
    match strip_prefix(path, "/api/tasks/"@) {
        Some(rest) => if rest.contains('/') {
            None
        } else {
            parse_u64_spec(rest)
        },
        None => None,
    }
}

/// `/api/tasks/ID/cancel`: the activity to cancel.
pub open spec fn task_cancel_spec(path: Seq<char>) -> Option<u64> {
    match strip_prefix(path, "/api/tasks/"@) {
        Some(rest) => match strip_suffix(rest, "/cancel"@) {
            Some(id) => parse_u64_spec(id),
            None => None,
        },
        None => None,
    }
}

/// `/api/builds/ID/log`: the build whose log is asked for.
pub open spec fn build_log_spec(path: Seq<char>) -> Option<i64> {
    match strip_prefix(path, "/api/builds/"@) {
        Some(rest) => match strip_suffix(rest, "/log"@) {
            Some(id) => parse_i64_spec(id),
            None => None,
        },
        None => None,
    }
}

pub fn task_detail_id(path: &str) -> (r: Option<u64>)
    ensures
        r == task_detail_spec(path@),
{
    let chars = chars_of(path);
    let prefix = chars_of("/api/tasks/");
    let rest = match strip_prefix_exec(&chars, &prefix) {
        Some(r) => r,
        None => {
            return None;
        },
    };
    let mut i: usize = 0;
    while i < rest.len()
        invariant
            i <= rest@.len(),
            strip_prefix(path@, "/api/tasks/"@) == Some(rest@),
            forall|j: int| 0 <= j < i ==> rest@[j] != '/',
        decreases rest@.len() - i,
    {
        if rest[i] == '/' {
            assert(rest@.contains('/'));
            return None;
        }
        i = i + 1;
    }
    parse_u64(&rest)
}

pub fn task_cancel_id(path: &str) -> (r: Option<u64>)
    ensures
        r == task_cancel_spec(path@),
{
    let chars = chars_of(path);
    let prefix = chars_of("/api/tasks/");
    let suffix = chars_of("/cancel");
    match strip_prefix_exec(&chars, &prefix) {
        Some(rest) => match strip_suffix_exec(&rest, &suffix) {
            Some(id) => parse_u64(&id),
            None => None,
        },
        None => None,
    }
}

pub fn build_log_id(path: &str) -> (r: Option<i64>)
    ensures
        r == build_log_spec(path@),
{
    let chars = chars_of(path);
    let prefix = chars_of("/api/builds/");
    let suffix = chars_of("/log");
    match strip_prefix_exec(&chars, &prefix) {
        Some(rest) => match strip_suffix_exec(&rest, &suffix) {
            Some(id) => parse_i64(&id),
            None => None,
        },
        None => None,
    }
}

/// A path never names both an activity's details and its cancellation.
pub proof fn law_detail_and_cancel_disjoint(path: Seq<char>)
    ensures
        !(task_detail_spec(path) is Some && task_cancel_spec(path) is Some),
{
    reveal_strlit("/cancel");
    if let Some(rest) = strip_prefix(path, "/api/tasks/"@) {
        if let Some(id) = strip_suffix(rest, "/cancel"@) {
            let k = rest.len() - 7;
            assert(rest.skip(k)[0] == '/');
            assert(rest[k] == '/');
            assert(rest.contains('/'));
        }
    }
}

// ---------------------------------------------------------------------------
// Query strings
// ---------------------------------------------------------------------------

/// The index of the first piece that starts with `prefix`, or the count.
pub open spec fn first_with_prefix(pieces: Seq<Seq<char>>, prefix: Seq<char>) -> int
    decreases pieces.len(),
{
    if pieces.len() == 0 {
        0
    } else {
        let r = first_with_prefix(pieces.drop_last(), prefix);
        if r < pieces.len() - 1 {
            r
        } else if starts_with(pieces.last(), prefix) {
            pieces.len() - 1
        } else {
            pieces.len() as int
        }
    }
}

/// The value of the first `KEY=VALUE` pair of a query string.
pub open spec fn query_value_spec(query: Seq<char>, key: Seq<char>) -> Option<Seq<char>> {
    let pieces = split(query, "&"@);
    let prefix = key + "="@;
    let i = first_with_prefix(pieces, prefix);
    if i < pieces.len() {
        Some(pieces[i].skip(prefix.len() as int))
    } else {
        None
    }
}

proof fn lemma_first_with_prefix_extend(pieces: Seq<Seq<char>>, prefix: Seq<char>, n: int)
    requires
        0 < n <= pieces.len(),
        first_with_prefix(pieces.take(n), prefix) < n,
    ensures
        first_with_prefix(pieces, prefix) == first_with_prefix(pieces.take(n), prefix),
    decreases pieces.len() - n,
{
    if n < pieces.len() {
        assert(pieces.take(n + 1).drop_last() =~= pieces.take(n));
        lemma_first_with_prefix_extend(pieces, prefix, n + 1);
    } else {
        assert(pieces.take(n) =~= pieces);
    }
}

/// The value of the first `key=VALUE` pair of `query`.
pub fn query_value(query: &str, key: &str) -> (r: Option<String>)
    ensures
        opt_view(r) == query_value_spec(query@, key@),
{
    let chars = chars_of(query);
    let amp = chars_of("&");
    proof {
        reveal_strlit("&");
    }
    let pieces = split_exec(&chars, &amp);
    let ghost ps = views(pieces@);
    let mut prefix_text = String::from_str(key);
    prefix_text.append("=");
    let prefix = chars_of(prefix_text.as_str());
    let mut i: usize = 0;
    while i < pieces.len()
        invariant
            i <= pieces@.len(),
            ps == views(pieces@),
            ps == split(query@, "&"@),
            prefix@ == key@ + "="@,
            first_with_prefix(ps.take(i as int), prefix@) == i,
        decreases pieces@.len() - i,
    {
        assert(ps.take(i + 1).drop_last() =~= ps.take(i as int));
        assert(ps.take(i + 1).last() == pieces@[i as int]@);
        match strip_prefix_exec(&pieces[i], &prefix) {
            Some(value) => {
                proof {
                    assert(first_with_prefix(ps.take(i + 1), prefix@) == i);
                    lemma_first_with_prefix_extend(ps, prefix@, i + 1);
                }
                return Some(string_of(&value));
            },
            None => {},
        }
        i = i + 1;
    }
    assert(ps.take(ps.len() as int) =~= ps);
    None
}

/// `query_value(query, key) == Some("1")`.
pub fn query_flag(query: &str, key: &str) -> (r: bool)
    ensures
        r == (query_value_spec(query@, key@) == Some("1"@)),
{
    match query_value(query, key) {
        Some(v) => eq_str(&v, "1"),
        None => false,
    }
}

/// The poll cursor of a query string: its `cursor` number, else 0.
pub open spec fn cursor_spec(query: Seq<char>) -> u64 {
    match query_value_spec(query, "cursor"@) {
        Some(v) => match parse_u64_spec(v) {
            Some(n) => n,
            None => 0,
        },
        None => 0,
    }
}

pub fn parse_cursor(query: &str) -> (r: u64)
    ensures
        r == cursor_spec(query@),
{
    match query_value(query, "cursor") {
        Some(v) => {
            let chars = chars_of(v.as_str());
            match parse_u64(&chars) {
                Some(n) => n,
                None => 0,
            }
        },
        None => 0,
    }
}

/// A query value with `%2F`, `%2f` and `+` decoded.
pub open spec fn decode_spec(value: Seq<char>) -> Seq<char> {
    replace_all(replace_all(replace_all(value, "%2F"@, "/"@), "%2f"@, "/"@), "+"@, " "@)
}

pub fn decode_component(value: &str) -> (r: String)
    ensures
        r@ == decode_spec(value@),
{
    proof {
        reveal_strlit("%2F");
        reveal_strlit("%2f");
        reveal_strlit("+");
    }
    let a = replace_str(value, "%2F", "/");
    let b = replace_str(a.as_str(), "%2f", "/");
    replace_str(b.as_str(), "+", " ")
}

/// The image a request is about: its decoded `image` query value, else
/// the project's default image.
pub fn requested_image(query: &str, default_image: Option<String>) -> (r: Option<String>)
    ensures
        opt_view(r) == match query_value_spec(query@, "image"@) {
            Some(v) => Some(decode_spec(v)),
            None => opt_view(default_image),
        },
{
    match query_value(query, "image") {
        Some(v) => Some(decode_component(v.as_str())),
        None => default_image,
    }
}

// ---------------------------------------------------------------------------
// Static files
// ---------------------------------------------------------------------------

/// What follows the last `.` of `path` (all of it when it has none).
pub open spec fn after_last_dot(path: Seq<char>) -> Seq<char>
    decreases path.len(),
{
    if path.len() == 0 {
        path
    } else if path.last() == '.' {
        Seq::empty()
    } else {
        after_last_dot(path.drop_last()).push(path.last())
    }
}

/// `path` ends in `.` and `ext` (which holds no `.`).
pub open spec fn has_extension(path: Seq<char>, ext: Seq<char>) -> bool {
    &&& path.len() > ext.len()
    &&& path[path.len() - ext.len() - 1] == '.'
    &&& path.subrange(path.len() - ext.len(), path.len() as int) == ext
}

proof fn lemma_after_last_dot_of_extension(path: Seq<char>, ext: Seq<char>)
    requires
        has_extension(path, ext),
        forall|i: int| 0 <= i < ext.len() ==> #[trigger] ext[i] != '.',
    ensures
        after_last_dot(path) == ext,
    decreases ext.len(),
{
    if ext.len() == 0 {
        assert(path.last() == '.');
    } else {
        let shorter = ext.drop_last();
        let p = path.drop_last();
        assert(p.subrange(p.len() - shorter.len(), p.len() as int) =~= shorter) by {
            assert forall|k: int| 0 <= k < shorter.len() implies p.subrange(
                p.len() - shorter.len(),
                p.len() as int,
            )[k] == shorter[k] by {
                assert(path.subrange(path.len() - ext.len(), path.len() as int)[k] == ext[k]);
            }
        }
        assert(p[p.len() - shorter.len() - 1] == path[path.len() - ext.len() - 1]);
        assert forall|i: int| 0 <= i < shorter.len() implies #[trigger] shorter[i] != '.' by {
            assert(shorter[i] == ext[i]);
        }
        lemma_after_last_dot_of_extension(p, shorter);
        assert(path.last() == path.subrange(path.len() - ext.len(), path.len() as int)[ext.len() - 1]);
        assert(path.last() == ext.last());
        assert(ext.last() == ext[ext.len() - 1]);
        assert(after_last_dot(path) =~= shorter.push(ext.last()));
    }
}

/// A file is served by its extension: `.css` as a stylesheet, `.js` and
/// `.mjs` as JavaScript, `.html` as a page, and so on for each type the UI
/// uses, whatever comes before the extension.
pub proof fn law_content_type_by_extension(path: Seq<char>)
    ensures
        has_extension(path, "html"@) ==> content_type_spec(path) == "text/html; charset=utf-8"@,
        has_extension(path, "js"@) ==> content_type_spec(path) == "text/javascript; charset=utf-8"@,
        has_extension(path, "mjs"@) ==> content_type_spec(path) == "text/javascript; charset=utf-8"@,
        has_extension(path, "css"@) ==> content_type_spec(path) == "text/css; charset=utf-8"@,
        has_extension(path, "json"@) ==> content_type_spec(path) == "application/json"@,
        has_extension(path, "svg"@) ==> content_type_spec(path) == "image/svg+xml"@,
        has_extension(path, "png"@) ==> content_type_spec(path) == "image/png"@,
        has_extension(path, "jpg"@) ==> content_type_spec(path) == "image/jpeg"@,
        has_extension(path, "jpeg"@) ==> content_type_spec(path) == "image/jpeg"@,
        has_extension(path, "gif"@) ==> content_type_spec(path) == "image/gif"@,
        has_extension(path, "webp"@) ==> content_type_spec(path) == "image/webp"@,
        has_extension(path, "ico"@) ==> content_type_spec(path) == "image/x-icon"@,
        has_extension(path, "woff2"@) ==> content_type_spec(path) == "font/woff2"@,
        has_extension(path, "woff"@) ==> content_type_spec(path) == "font/woff"@,
        has_extension(path, "ttf"@) ==> content_type_spec(path) == "font/ttf"@,
        has_extension(path, "map"@) ==> content_type_spec(path) == "application/json"@,
{
    if has_extension(path, "html"@) {
        reveal_strlit("html");
        lemma_after_last_dot_of_extension(path, "html"@);
        reveal_strlit("text/html; charset=utf-8");
        assert(content_type_spec(path) == "text/html; charset=utf-8"@);
    }
    if has_extension(path, "js"@) {
        reveal_strlit("js");
        lemma_after_last_dot_of_extension(path, "js"@);
        reveal_strlit("html");
        assert("js"@ != "html"@) by {
            assert("js"@.len() != "html"@.len());
        }
        reveal_strlit("text/javascript; charset=utf-8");
        assert(content_type_spec(path) == "text/javascript; charset=utf-8"@);
    }
    if has_extension(path, "mjs"@) {
        reveal_strlit("mjs");
        lemma_after_last_dot_of_extension(path, "mjs"@);
        reveal_strlit("html");
        assert("mjs"@ != "html"@) by {
            assert("mjs"@.len() != "html"@.len());
        }
        reveal_strlit("js");
        assert("mjs"@ != "js"@) by {
            assert("mjs"@.len() != "js"@.len());
        }
        reveal_strlit("text/javascript; charset=utf-8");
        assert(content_type_spec(path) == "text/javascript; charset=utf-8"@);
    }
    if has_extension(path, "css"@) {
        reveal_strlit("css");
        lemma_after_last_dot_of_extension(path, "css"@);
        reveal_strlit("html");
        assert("css"@ != "html"@) by {
            assert("css"@.len() != "html"@.len());
        }
        reveal_strlit("js");
        assert("css"@ != "js"@) by {
            assert("css"@.len() != "js"@.len());
        }
        reveal_strlit("mjs");
        assert("css"@ != "mjs"@) by {
            assert("css"@[0] != "mjs"@[0]);
        }
        reveal_strlit("text/css; charset=utf-8");
        assert(content_type_spec(path) == "text/css; charset=utf-8"@);
    }
    if has_extension(path, "json"@) {
        reveal_strlit("json");
        lemma_after_last_dot_of_extension(path, "json"@);
        reveal_strlit("html");
        assert("json"@ != "html"@) by {
            assert("json"@[0] != "html"@[0]);
        }
        reveal_strlit("js");
        assert("json"@ != "js"@) by {
            assert("json"@.len() != "js"@.len());
        }
        reveal_strlit("mjs");
        assert("json"@ != "mjs"@) by {
            assert("json"@.len() != "mjs"@.len());
        }
        reveal_strlit("css");
        assert("json"@ != "css"@) by {
            assert("json"@.len() != "css"@.len());
        }
        reveal_strlit("application/json");
        assert(content_type_spec(path) == "application/json"@);
    }
    if has_extension(path, "svg"@) {
        reveal_strlit("svg");
        lemma_after_last_dot_of_extension(path, "svg"@);
        reveal_strlit("html");
        assert("svg"@ != "html"@) by {
            assert("svg"@.len() != "html"@.len());
        }
        reveal_strlit("js");
        assert("svg"@ != "js"@) by {
            assert("svg"@.len() != "js"@.len());
        }
        reveal_strlit("mjs");
        assert("svg"@ != "mjs"@) by {
            assert("svg"@[0] != "mjs"@[0]);
        }
        reveal_strlit("css");
        assert("svg"@ != "css"@) by {
            assert("svg"@[0] != "css"@[0]);
        }
        reveal_strlit("json");
        assert("svg"@ != "json"@) by {
            assert("svg"@.len() != "json"@.len());
        }
        reveal_strlit("image/svg+xml");
        assert(content_type_spec(path) == "image/svg+xml"@);
    }
    if has_extension(path, "png"@) {
        reveal_strlit("png");
        lemma_after_last_dot_of_extension(path, "png"@);
        reveal_strlit("html");
        assert("png"@ != "html"@) by {
            assert("png"@.len() != "html"@.len());
        }
        reveal_strlit("js");
        assert("png"@ != "js"@) by {
            assert("png"@.len() != "js"@.len());
        }
        reveal_strlit("mjs");
        assert("png"@ != "mjs"@) by {
            assert("png"@[0] != "mjs"@[0]);
        }
        reveal_strlit("css");
        assert("png"@ != "css"@) by {
            assert("png"@[0] != "css"@[0]);
        }
        reveal_strlit("json");
        assert("png"@ != "json"@) by {
            assert("png"@.len() != "json"@.len());
        }
        reveal_strlit("svg");
        assert("png"@ != "svg"@) by {
            assert("png"@[0] != "svg"@[0]);
        }
        reveal_strlit("image/png");
        assert(content_type_spec(path) == "image/png"@);
    }
    if has_extension(path, "jpg"@) {
        reveal_strlit("jpg");
        lemma_after_last_dot_of_extension(path, "jpg"@);
        reveal_strlit("html");
        assert("jpg"@ != "html"@) by {
            assert("jpg"@.len() != "html"@.len());
        }
        reveal_strlit("js");
        assert("jpg"@ != "js"@) by {
            assert("jpg"@.len() != "js"@.len());
        }
        reveal_strlit("mjs");
        assert("jpg"@ != "mjs"@) by {
            assert("jpg"@[0] != "mjs"@[0]);
        }
        reveal_strlit("css");
        assert("jpg"@ != "css"@) by {
            assert("jpg"@[0] != "css"@[0]);
        }
        reveal_strlit("json");
        assert("jpg"@ != "json"@) by {
            assert("jpg"@.len() != "json"@.len());
        }
        reveal_strlit("svg");
        assert("jpg"@ != "svg"@) by {
            assert("jpg"@[0] != "svg"@[0]);
        }
        reveal_strlit("png");
        assert("jpg"@ != "png"@) by {
            assert("jpg"@[0] != "png"@[0]);
        }
        reveal_strlit("image/jpeg");
        assert(content_type_spec(path) == "image/jpeg"@);
    }
    if has_extension(path, "jpeg"@) {
        reveal_strlit("jpeg");
        lemma_after_last_dot_of_extension(path, "jpeg"@);
        reveal_strlit("html");
        assert("jpeg"@ != "html"@) by {
            assert("jpeg"@[0] != "html"@[0]);
        }
        reveal_strlit("js");
        assert("jpeg"@ != "js"@) by {
            assert("jpeg"@.len() != "js"@.len());
        }
        reveal_strlit("mjs");
        assert("jpeg"@ != "mjs"@) by {
            assert("jpeg"@.len() != "mjs"@.len());
        }
        reveal_strlit("css");
        assert("jpeg"@ != "css"@) by {
            assert("jpeg"@.len() != "css"@.len());
        }
        reveal_strlit("json");
        assert("jpeg"@ != "json"@) by {
            assert("jpeg"@[1] != "json"@[1]);
        }
        reveal_strlit("svg");
        assert("jpeg"@ != "svg"@) by {
            assert("jpeg"@.len() != "svg"@.len());
        }
        reveal_strlit("png");
        assert("jpeg"@ != "png"@) by {
            assert("jpeg"@.len() != "png"@.len());
        }
        reveal_strlit("jpg");
        assert("jpeg"@ != "jpg"@) by {
            assert("jpeg"@.len() != "jpg"@.len());
        }
        reveal_strlit("image/jpeg");
        assert(content_type_spec(path) == "image/jpeg"@);
    }
    if has_extension(path, "gif"@) {
        reveal_strlit("gif");
        lemma_after_last_dot_of_extension(path, "gif"@);
        reveal_strlit("html");
        assert("gif"@ != "html"@) by {
            assert("gif"@.len() != "html"@.len());
        }
        reveal_strlit("js");
        assert("gif"@ != "js"@) by {
            assert("gif"@.len() != "js"@.len());
        }
        reveal_strlit("mjs");
        assert("gif"@ != "mjs"@) by {
            assert("gif"@[0] != "mjs"@[0]);
        }
        reveal_strlit("css");
        assert("gif"@ != "css"@) by {
            assert("gif"@[0] != "css"@[0]);
        }
        reveal_strlit("json");
        assert("gif"@ != "json"@) by {
            assert("gif"@.len() != "json"@.len());
        }
        reveal_strlit("svg");
        assert("gif"@ != "svg"@) by {
            assert("gif"@[0] != "svg"@[0]);
        }
        reveal_strlit("png");
        assert("gif"@ != "png"@) by {
            assert("gif"@[0] != "png"@[0]);
        }
        reveal_strlit("jpg");
        assert("gif"@ != "jpg"@) by {
            assert("gif"@[0] != "jpg"@[0]);
        }
        reveal_strlit("jpeg");
        assert("gif"@ != "jpeg"@) by {
            assert("gif"@.len() != "jpeg"@.len());
        }
        reveal_strlit("image/gif");
        assert(content_type_spec(path) == "image/gif"@);
    }
    if has_extension(path, "webp"@) {
        reveal_strlit("webp");
        lemma_after_last_dot_of_extension(path, "webp"@);
        reveal_strlit("html");
        assert("webp"@ != "html"@) by {
            assert("webp"@[0] != "html"@[0]);
        }
        reveal_strlit("js");
        assert("webp"@ != "js"@) by {
            assert("webp"@.len() != "js"@.len());
        }
        reveal_strlit("mjs");
        assert("webp"@ != "mjs"@) by {
            assert("webp"@.len() != "mjs"@.len());
        }
        reveal_strlit("css");
        assert("webp"@ != "css"@) by {
            assert("webp"@.len() != "css"@.len());
        }
        reveal_strlit("json");
        assert("webp"@ != "json"@) by {
            assert("webp"@[0] != "json"@[0]);
        }
        reveal_strlit("svg");
        assert("webp"@ != "svg"@) by {
            assert("webp"@.len() != "svg"@.len());
        }
        reveal_strlit("png");
        assert("webp"@ != "png"@) by {
            assert("webp"@.len() != "png"@.len());
        }
        reveal_strlit("jpg");
        assert("webp"@ != "jpg"@) by {
            assert("webp"@.len() != "jpg"@.len());
        }
        reveal_strlit("jpeg");
        assert("webp"@ != "jpeg"@) by {
            assert("webp"@[0] != "jpeg"@[0]);
        }
        reveal_strlit("gif");
        assert("webp"@ != "gif"@) by {
            assert("webp"@.len() != "gif"@.len());
        }
        reveal_strlit("image/webp");
        assert(content_type_spec(path) == "image/webp"@);
    }
    if has_extension(path, "ico"@) {
        reveal_strlit("ico");
        lemma_after_last_dot_of_extension(path, "ico"@);
        reveal_strlit("html");
        assert("ico"@ != "html"@) by {
            assert("ico"@.len() != "html"@.len());
        }
        reveal_strlit("js");
        assert("ico"@ != "js"@) by {
            assert("ico"@.len() != "js"@.len());
        }
        reveal_strlit("mjs");
        assert("ico"@ != "mjs"@) by {
            assert("ico"@[0] != "mjs"@[0]);
        }
        reveal_strlit("css");
        assert("ico"@ != "css"@) by {
            assert("ico"@[0] != "css"@[0]);
        }
        reveal_strlit("json");
        assert("ico"@ != "json"@) by {
            assert("ico"@.len() != "json"@.len());
        }
        reveal_strlit("svg");
        assert("ico"@ != "svg"@) by {
            assert("ico"@[0] != "svg"@[0]);
        }
        reveal_strlit("png");
        assert("ico"@ != "png"@) by {
            assert("ico"@[0] != "png"@[0]);
        }
        reveal_strlit("jpg");
        assert("ico"@ != "jpg"@) by {
            assert("ico"@[0] != "jpg"@[0]);
        }
        reveal_strlit("jpeg");
        assert("ico"@ != "jpeg"@) by {
            assert("ico"@.len() != "jpeg"@.len());
        }
        reveal_strlit("gif");
        assert("ico"@ != "gif"@) by {
            assert("ico"@[0] != "gif"@[0]);
        }
        reveal_strlit("webp");
        assert("ico"@ != "webp"@) by {
            assert("ico"@.len() != "webp"@.len());
        }
        reveal_strlit("image/x-icon");
        assert(content_type_spec(path) == "image/x-icon"@);
    }
    if has_extension(path, "woff2"@) {
        reveal_strlit("woff2");
        lemma_after_last_dot_of_extension(path, "woff2"@);
        reveal_strlit("html");
        assert("woff2"@ != "html"@) by {
            assert("woff2"@.len() != "html"@.len());
        }
        reveal_strlit("js");
        assert("woff2"@ != "js"@) by {
            assert("woff2"@.len() != "js"@.len());
        }
        reveal_strlit("mjs");
        assert("woff2"@ != "mjs"@) by {
            assert("woff2"@.len() != "mjs"@.len());
        }
        reveal_strlit("css");
        assert("woff2"@ != "css"@) by {
            assert("woff2"@.len() != "css"@.len());
        }
        reveal_strlit("json");
        assert("woff2"@ != "json"@) by {
            assert("woff2"@.len() != "json"@.len());
        }
        reveal_strlit("svg");
        assert("woff2"@ != "svg"@) by {
            assert("woff2"@.len() != "svg"@.len());
        }
        reveal_strlit("png");
        assert("woff2"@ != "png"@) by {
            assert("woff2"@.len() != "png"@.len());
        }
        reveal_strlit("jpg");
        assert("woff2"@ != "jpg"@) by {
            assert("woff2"@.len() != "jpg"@.len());
        }
        reveal_strlit("jpeg");
        assert("woff2"@ != "jpeg"@) by {
            assert("woff2"@.len() != "jpeg"@.len());
        }
        reveal_strlit("gif");
        assert("woff2"@ != "gif"@) by {
            assert("woff2"@.len() != "gif"@.len());
        }
        reveal_strlit("webp");
        assert("woff2"@ != "webp"@) by {
            assert("woff2"@.len() != "webp"@.len());
        }
        reveal_strlit("ico");
        assert("woff2"@ != "ico"@) by {
            assert("woff2"@.len() != "ico"@.len());
        }
        reveal_strlit("font/woff2");
        assert(content_type_spec(path) == "font/woff2"@);
    }
    if has_extension(path, "woff"@) {
        reveal_strlit("woff");
        lemma_after_last_dot_of_extension(path, "woff"@);
        reveal_strlit("html");
        assert("woff"@ != "html"@) by {
            assert("woff"@[0] != "html"@[0]);
        }
        reveal_strlit("js");
        assert("woff"@ != "js"@) by {
            assert("woff"@.len() != "js"@.len());
        }
        reveal_strlit("mjs");
        assert("woff"@ != "mjs"@) by {
            assert("woff"@.len() != "mjs"@.len());
        }
        reveal_strlit("css");
        assert("woff"@ != "css"@) by {
            assert("woff"@.len() != "css"@.len());
        }
        reveal_strlit("json");
        assert("woff"@ != "json"@) by {
            assert("woff"@[0] != "json"@[0]);
        }
        reveal_strlit("svg");
        assert("woff"@ != "svg"@) by {
            assert("woff"@.len() != "svg"@.len());
        }
        reveal_strlit("png");
        assert("woff"@ != "png"@) by {
            assert("woff"@.len() != "png"@.len());
        }
        reveal_strlit("jpg");
        assert("woff"@ != "jpg"@) by {
            assert("woff"@.len() != "jpg"@.len());
        }
        reveal_strlit("jpeg");
        assert("woff"@ != "jpeg"@) by {
            assert("woff"@[0] != "jpeg"@[0]);
        }
        reveal_strlit("gif");
        assert("woff"@ != "gif"@) by {
            assert("woff"@.len() != "gif"@.len());
        }
        reveal_strlit("webp");
        assert("woff"@ != "webp"@) by {
            assert("woff"@[1] != "webp"@[1]);
        }
        reveal_strlit("ico");
        assert("woff"@ != "ico"@) by {
            assert("woff"@.len() != "ico"@.len());
        }
        reveal_strlit("woff2");
        assert("woff"@ != "woff2"@) by {
            assert("woff"@.len() != "woff2"@.len());
        }
        reveal_strlit("font/woff");
        assert(content_type_spec(path) == "font/woff"@);
    }
    if has_extension(path, "ttf"@) {
        reveal_strlit("ttf");
        lemma_after_last_dot_of_extension(path, "ttf"@);
        reveal_strlit("html");
        assert("ttf"@ != "html"@) by {
            assert("ttf"@.len() != "html"@.len());
        }
        reveal_strlit("js");
        assert("ttf"@ != "js"@) by {
            assert("ttf"@.len() != "js"@.len());
        }
        reveal_strlit("mjs");
        assert("ttf"@ != "mjs"@) by {
            assert("ttf"@[0] != "mjs"@[0]);
        }
        reveal_strlit("css");
        assert("ttf"@ != "css"@) by {
            assert("ttf"@[0] != "css"@[0]);
        }
        reveal_strlit("json");
        assert("ttf"@ != "json"@) by {
            assert("ttf"@.len() != "json"@.len());
        }
        reveal_strlit("svg");
        assert("ttf"@ != "svg"@) by {
            assert("ttf"@[0] != "svg"@[0]);
        }
        reveal_strlit("png");
        assert("ttf"@ != "png"@) by {
            assert("ttf"@[0] != "png"@[0]);
        }
        reveal_strlit("jpg");
        assert("ttf"@ != "jpg"@) by {
            assert("ttf"@[0] != "jpg"@[0]);
        }
        reveal_strlit("jpeg");
        assert("ttf"@ != "jpeg"@) by {
            assert("ttf"@.len() != "jpeg"@.len());
        }
        reveal_strlit("gif");
        assert("ttf"@ != "gif"@) by {
            assert("ttf"@[0] != "gif"@[0]);
        }
        reveal_strlit("webp");
        assert("ttf"@ != "webp"@) by {
            assert("ttf"@.len() != "webp"@.len());
        }
        reveal_strlit("ico");
        assert("ttf"@ != "ico"@) by {
            assert("ttf"@[0] != "ico"@[0]);
        }
        reveal_strlit("woff2");
        assert("ttf"@ != "woff2"@) by {
            assert("ttf"@.len() != "woff2"@.len());
        }
        reveal_strlit("woff");
        assert("ttf"@ != "woff"@) by {
            assert("ttf"@.len() != "woff"@.len());
        }
        reveal_strlit("font/ttf");
        assert(content_type_spec(path) == "font/ttf"@);
    }
    if has_extension(path, "map"@) {
        reveal_strlit("map");
        lemma_after_last_dot_of_extension(path, "map"@);
        reveal_strlit("html");
        assert("map"@ != "html"@) by {
            assert("map"@.len() != "html"@.len());
        }
        reveal_strlit("js");
        assert("map"@ != "js"@) by {
            assert("map"@.len() != "js"@.len());
        }
        reveal_strlit("mjs");
        assert("map"@ != "mjs"@) by {
            assert("map"@[1] != "mjs"@[1]);
        }
        reveal_strlit("css");
        assert("map"@ != "css"@) by {
            assert("map"@[0] != "css"@[0]);
        }
        reveal_strlit("json");
        assert("map"@ != "json"@) by {
            assert("map"@.len() != "json"@.len());
        }
        reveal_strlit("svg");
        assert("map"@ != "svg"@) by {
            assert("map"@[0] != "svg"@[0]);
        }
        reveal_strlit("png");
        assert("map"@ != "png"@) by {
            assert("map"@[0] != "png"@[0]);
        }
        reveal_strlit("jpg");
        assert("map"@ != "jpg"@) by {
            assert("map"@[0] != "jpg"@[0]);
        }
        reveal_strlit("jpeg");
        assert("map"@ != "jpeg"@) by {
            assert("map"@.len() != "jpeg"@.len());
        }
        reveal_strlit("gif");
        assert("map"@ != "gif"@) by {
            assert("map"@[0] != "gif"@[0]);
        }
        reveal_strlit("webp");
        assert("map"@ != "webp"@) by {
            assert("map"@.len() != "webp"@.len());
        }
        reveal_strlit("ico");
        assert("map"@ != "ico"@) by {
            assert("map"@[0] != "ico"@[0]);
        }
        reveal_strlit("woff2");
        assert("map"@ != "woff2"@) by {
            assert("map"@.len() != "woff2"@.len());
        }
        reveal_strlit("woff");
        assert("map"@ != "woff"@) by {
            assert("map"@.len() != "woff"@.len());
        }
        reveal_strlit("ttf");
        assert("map"@ != "ttf"@) by {
            assert("map"@[0] != "ttf"@[0]);
        }
        reveal_strlit("application/json");
        assert(content_type_spec(path) == "application/json"@);
    }
}

/// The media type served for a file, by its extension.
pub open spec fn content_type_spec(path: Seq<char>) -> Seq<char> {
    let e = after_last_dot(path);
    if e == "html"@ {
        "text/html; charset=utf-8"@
    } else if e == "js"@ || e == "mjs"@ {
        "text/javascript; charset=utf-8"@
    } else if e == "css"@ {
        "text/css; charset=utf-8"@
    } else if e == "json"@ {
        "application/json"@
    } else if e == "svg"@ {
        "image/svg+xml"@
    } else if e == "png"@ {
        "image/png"@
    } else if e == "jpg"@ || e == "jpeg"@ {
        "image/jpeg"@
    } else if e == "gif"@ {
        "image/gif"@
    } else if e == "webp"@ {
        "image/webp"@
    } else if e == "ico"@ {
        "image/x-icon"@
    } else if e == "woff2"@ {
        "font/woff2"@
    } else if e == "woff"@ {
        "font/woff"@
    } else if e == "ttf"@ {
        "font/ttf"@
    } else if e == "map"@ {
        "application/json"@
    } else {
        "application/octet-stream"@
    }
}

/// The media type served for a file, by the text after its last `.`.
pub fn content_type(path: &str) -> (r: &'static str)
    ensures
        r@ == content_type_spec(path@),
        has_extension(path@, "html"@) ==> r@ == "text/html; charset=utf-8"@,
        has_extension(path@, "js"@) ==> r@ == "text/javascript; charset=utf-8"@,
        has_extension(path@, "mjs"@) ==> r@ == "text/javascript; charset=utf-8"@,
        has_extension(path@, "css"@) ==> r@ == "text/css; charset=utf-8"@,
        has_extension(path@, "json"@) ==> r@ == "application/json"@,
        has_extension(path@, "svg"@) ==> r@ == "image/svg+xml"@,
        has_extension(path@, "png"@) ==> r@ == "image/png"@,
        has_extension(path@, "jpg"@) ==> r@ == "image/jpeg"@,
        has_extension(path@, "jpeg"@) ==> r@ == "image/jpeg"@,
        has_extension(path@, "gif"@) ==> r@ == "image/gif"@,
        has_extension(path@, "webp"@) ==> r@ == "image/webp"@,
        has_extension(path@, "ico"@) ==> r@ == "image/x-icon"@,
        has_extension(path@, "woff2"@) ==> r@ == "font/woff2"@,
        has_extension(path@, "woff"@) ==> r@ == "font/woff"@,
        has_extension(path@, "ttf"@) ==> r@ == "font/ttf"@,
        has_extension(path@, "map"@) ==> r@ == "application/json"@,
{
    proof {
        law_content_type_by_extension(path@);
    }
    let chars = chars_of(path);
    let mut ext: Vec<char> = Vec::new();
    let mut i: usize = 0;
    while i < chars.len()
        invariant
            i <= chars@.len(),
            chars@ == path@,
            ext@ == after_last_dot(path@.take(i as int)),
        decreases chars@.len() - i,
    {
        assert(path@.take(i + 1).drop_last() =~= path@.take(i as int));
        if chars[i] == '.' {
            ext = Vec::new();
            assert(ext@ =~= after_last_dot(path@.take(i + 1)));
        } else {
            ext.push(chars[i]);
        }
        i = i + 1;
    }
    assert(path@.take(path@.len() as int) =~= path@);
    let e = string_of(&ext);
    if eq_str(&e, "html") {
        "text/html; charset=utf-8"
    } else if eq_str(&e, "js") || eq_str(&e, "mjs") {
        "text/javascript; charset=utf-8"
    } else if eq_str(&e, "css") {
        "text/css; charset=utf-8"
    } else if eq_str(&e, "json") {
        "application/json"
    } else if eq_str(&e, "svg") {
        "image/svg+xml"
    } else if eq_str(&e, "png") {
        "image/png"
    } else if eq_str(&e, "jpg") || eq_str(&e, "jpeg") {
        "image/jpeg"
    } else if eq_str(&e, "gif") {
        "image/gif"
    } else if eq_str(&e, "webp") {
        "image/webp"
    } else if eq_str(&e, "ico") {
        "image/x-icon"
    } else if eq_str(&e, "woff2") {
        "font/woff2"
    } else if eq_str(&e, "woff") {
        "font/woff"
    } else if eq_str(&e, "ttf") {
        "font/ttf"
    } else if eq_str(&e, "map") {
        "application/json"
    } else {
        "application/octet-stream"
    }
}

/// The bundled file a page path asks for: the path without leading `/`s,
/// or `index.html` for the root.
pub open spec fn spa_candidate_spec(path: Seq<char>) -> Seq<char> {
    let relative = trim_start_char(path, '/');
    if relative.len() == 0 {
        "index.html"@
    } else {
        relative
    }
}

pub fn spa_candidate(path: &str) -> (r: String)
    ensures
        r@ == spa_candidate_spec(path@),
{
    let chars = chars_of(path);
    let relative = trim_start_char_exec(&chars, '/');
    if relative.len() == 0 {
        String::from_str("index.html")
    } else {
        string_of(&relative)
    }
}

// ---------------------------------------------------------------------------
// Routes
// ---------------------------------------------------------------------------

/// The handler of a request.
#[derive(Debug, PartialEq, Eq, Structural)]
pub enum Route {
    Events,
    Info,
    Poll,
    BuildLog(i64),
    TaskDetail(u64),
    TaskCancel(u64),
    CancelAllTasks,
    GetProject,
    PostProject,
    GetDependencies,
    PostDependency,
    GetMetadata,
    GetLayout,
    GetDeptree,
    GetRecipeTree,
    GetPlan,
    GetArtifacts,
    PostLayoutPreview,
    PostLayoutSave,
    GetBuilds,
    PostBuild,
    PostBuildCancel,
    GetBuildTasks,
    GetTasks,
    GetRevisions,
    GetPlugins,
    GetSystem,
    GetCache,
    PostCacheClear,
    /// An unknown path under `/api`.
    NotFound,
    /// A page or file of the web UI.
    Spa,
    /// Anything but GET outside `/api`.
    MethodNotAllowed,
}

/// The handler of an `/api` path that names no id, by method and path.
pub open spec fn fixed_route(method: Seq<char>, path: Seq<char>) -> Route {
    if method == "GET"@ {
        if path == "/api/project"@ {
            Route::GetProject
        } else if path == "/api/dependencies"@ {
            Route::GetDependencies
        } else if path == "/api/metadata"@ {
            Route::GetMetadata
        } else if path == "/api/layout"@ {
            Route::GetLayout
        } else if path == "/api/deptree"@ {
            Route::GetDeptree
        } else if path == "/api/recipetree"@ {
            Route::GetRecipeTree
        } else if path == "/api/plan"@ {
            Route::GetPlan
        } else if path == "/api/artifacts"@ {
            Route::GetArtifacts
        } else if path == "/api/builds"@ {
            Route::GetBuilds
        } else if path == "/api/build/tasks"@ {
            Route::GetBuildTasks
        } else if path == "/api/tasks"@ {
            Route::GetTasks
        } else if path == "/api/revisions"@ {
            Route::GetRevisions
        } else if path == "/api/plugins"@ {
            Route::GetPlugins
        } else if path == "/api/system"@ {
            Route::GetSystem
        } else if path == "/api/cache"@ {
            Route::GetCache
        } else {
            Route::NotFound
        }
    } else if method == "POST"@ {
        if path == "/api/project"@ {
            Route::PostProject
        } else if path == "/api/dependency"@ {
            Route::PostDependency
        } else if path == "/api/layout/preview"@ {
            Route::PostLayoutPreview
        } else if path == "/api/layout/save"@ {
            Route::PostLayoutSave
        } else if path == "/api/build"@ {
            Route::PostBuild
        } else if path == "/api/build/cancel"@ {
            Route::PostBuildCancel
        } else if path == "/api/cache/clear"@ {
            Route::PostCacheClear
        } else {
            Route::NotFound
        }
    } else {
        Route::NotFound
    }
}

/// The handler of a request: the event stream, then `/api` paths (info,
/// poll, ids in paths, fixed paths), then the web UI for GET.
pub open spec fn route_spec(method: Seq<char>, path: Seq<char>) -> Route {
    if method == "GET"@ && path == "/api/events"@ {
        Route::Events
    } else if starts_with(path, "/api"@) {
        if method == "GET"@ && path == "/api/info"@ {
            Route::Info
        } else if method == "GET"@ && path == "/api/poll"@ {
            Route::Poll
        } else if method == "GET"@ && build_log_spec(path) is Some {
            Route::BuildLog(build_log_spec(path)->0)
        } else if method == "GET"@ && task_detail_spec(path) is Some {
            Route::TaskDetail(task_detail_spec(path)->0)
        } else if method == "POST"@ && task_cancel_spec(path) is Some {
            Route::TaskCancel(task_cancel_spec(path)->0)
        } else if method == "POST"@ && path == "/api/tasks/cancel-all"@ {
            Route::CancelAllTasks
        } else {
            fixed_route(method, path)
        }
    } else if method == "GET"@ {
        Route::Spa
    } else {
        Route::MethodNotAllowed
    }
}

/// The fixed `/api` routes, by method and path.
proof fn lemma_fixed_routes()
    ensures
        route_spec("GET"@, "/api/project"@) == Route::GetProject,
        route_spec("GET"@, "/api/dependencies"@) == Route::GetDependencies,
        route_spec("GET"@, "/api/metadata"@) == Route::GetMetadata,
        route_spec("GET"@, "/api/layout"@) == Route::GetLayout,
        route_spec("GET"@, "/api/deptree"@) == Route::GetDeptree,
        route_spec("GET"@, "/api/recipetree"@) == Route::GetRecipeTree,
        route_spec("GET"@, "/api/plan"@) == Route::GetPlan,
        route_spec("GET"@, "/api/artifacts"@) == Route::GetArtifacts,
        route_spec("GET"@, "/api/builds"@) == Route::GetBuilds,
        route_spec("GET"@, "/api/build/tasks"@) == Route::GetBuildTasks,
        route_spec("GET"@, "/api/tasks"@) == Route::GetTasks,
        route_spec("GET"@, "/api/revisions"@) == Route::GetRevisions,
        route_spec("GET"@, "/api/plugins"@) == Route::GetPlugins,
        route_spec("GET"@, "/api/system"@) == Route::GetSystem,
        route_spec("GET"@, "/api/cache"@) == Route::GetCache,
        route_spec("POST"@, "/api/project"@) == Route::PostProject,
        route_spec("POST"@, "/api/dependency"@) == Route::PostDependency,
        route_spec("POST"@, "/api/layout/preview"@) == Route::PostLayoutPreview,
        route_spec("POST"@, "/api/layout/save"@) == Route::PostLayoutSave,
        route_spec("POST"@, "/api/build"@) == Route::PostBuild,
        route_spec("POST"@, "/api/build/cancel"@) == Route::PostBuildCancel,
        route_spec("POST"@, "/api/cache/clear"@) == Route::PostCacheClear,
        route_spec("GET"@, "/api/events"@) == Route::Events,
        route_spec("GET"@, "/api/info"@) == Route::Info,
        route_spec("GET"@, "/api/poll"@) == Route::Poll,
        route_spec("POST"@, "/api/tasks/cancel-all"@) == Route::CancelAllTasks,
{
    reveal_strlit("/api");
    reveal_strlit("/api/artifacts");
    reveal_strlit("/api/build");
    reveal_strlit("/api/build/cancel");
    reveal_strlit("/api/build/tasks");
    reveal_strlit("/api/builds");
    reveal_strlit("/api/builds/");
    reveal_strlit("/api/cache");
    reveal_strlit("/api/cache/clear");
    reveal_strlit("/api/dependencies");
    reveal_strlit("/api/dependency");
    reveal_strlit("/api/deptree");
    reveal_strlit("/api/events");
    reveal_strlit("/api/info");
    reveal_strlit("/api/layout");
    reveal_strlit("/api/layout/preview");
    reveal_strlit("/api/layout/save");
    reveal_strlit("/api/metadata");
    reveal_strlit("/api/plan");
    reveal_strlit("/api/plugins");
    reveal_strlit("/api/poll");
    reveal_strlit("/api/project");
    reveal_strlit("/api/recipetree");
    reveal_strlit("/api/revisions");
    reveal_strlit("/api/system");
    reveal_strlit("/api/tasks");
    reveal_strlit("/api/tasks/");
    reveal_strlit("/api/tasks/cancel-all");
    reveal_strlit("/cancel");
    reveal_strlit("/log");
    reveal_strlit("GET");
    reveal_strlit("POST");
    assert("POST"@.len() != "GET"@.len());
    assert(starts_with("/api/project"@, "/api"@)) by {
        assert("/api/project"@.take(4) =~= "/api"@);
    }
    assert(!starts_with("/api/project"@, "/api/builds/"@)) by {
        assert("/api/project"@.take(12)[5] != "/api/builds/"@[5]);
    }
    assert(!starts_with("/api/project"@, "/api/tasks/"@)) by {
        assert("/api/project"@.take(11)[5] != "/api/tasks/"@[5]);
    }
    assert(route_spec("GET"@, "/api/project"@) == fixed_route("GET"@, "/api/project"@));
    assert(starts_with("/api/dependencies"@, "/api"@)) by {
        assert("/api/dependencies"@.take(4) =~= "/api"@);
    }
    assert(!starts_with("/api/dependencies"@, "/api/builds/"@)) by {
        assert("/api/dependencies"@.take(12)[5] != "/api/builds/"@[5]);
    }
    assert(!starts_with("/api/dependencies"@, "/api/tasks/"@)) by {
        assert("/api/dependencies"@.take(11)[5] != "/api/tasks/"@[5]);
    }
    assert(route_spec("GET"@, "/api/dependencies"@) == fixed_route("GET"@, "/api/dependencies"@));
    assert(starts_with("/api/metadata"@, "/api"@)) by {
        assert("/api/metadata"@.take(4) =~= "/api"@);
    }
    assert(!starts_with("/api/metadata"@, "/api/builds/"@)) by {
        assert("/api/metadata"@.take(12)[5] != "/api/builds/"@[5]);
    }
    assert(!starts_with("/api/metadata"@, "/api/tasks/"@)) by {
        assert("/api/metadata"@.take(11)[5] != "/api/tasks/"@[5]);
    }
    assert(route_spec("GET"@, "/api/metadata"@) == fixed_route("GET"@, "/api/metadata"@));
    assert(starts_with("/api/layout"@, "/api"@)) by {
        assert("/api/layout"@.take(4) =~= "/api"@);
    }
    assert("/api/layout"@ != "/api/events"@) by {
        assert("/api/layout"@[5] != "/api/events"@[5]);
    }
    assert(!starts_with("/api/layout"@, "/api/tasks/"@)) by {
        assert("/api/layout"@.take(11)[5] != "/api/tasks/"@[5]);
    }
    assert(route_spec("GET"@, "/api/layout"@) == fixed_route("GET"@, "/api/layout"@));
    assert(starts_with("/api/deptree"@, "/api"@)) by {
        assert("/api/deptree"@.take(4) =~= "/api"@);
    }
    assert("/api/deptree"@ != "/api/project"@) by {
        assert("/api/deptree"@[5] != "/api/project"@[5]);
    }
    assert(!starts_with("/api/deptree"@, "/api/builds/"@)) by {
        assert("/api/deptree"@.take(12)[5] != "/api/builds/"@[5]);
    }
    assert(!starts_with("/api/deptree"@, "/api/tasks/"@)) by {
        assert("/api/deptree"@.take(11)[5] != "/api/tasks/"@[5]);
    }
    assert(route_spec("GET"@, "/api/deptree"@) == fixed_route("GET"@, "/api/deptree"@));
    assert(starts_with("/api/recipetree"@, "/api"@)) by {
        assert("/api/recipetree"@.take(4) =~= "/api"@);
    }
    assert(!starts_with("/api/recipetree"@, "/api/builds/"@)) by {
        assert("/api/recipetree"@.take(12)[5] != "/api/builds/"@[5]);
    }
    assert(!starts_with("/api/recipetree"@, "/api/tasks/"@)) by {
        assert("/api/recipetree"@.take(11)[5] != "/api/tasks/"@[5]);
    }
    assert(route_spec("GET"@, "/api/recipetree"@) == fixed_route("GET"@, "/api/recipetree"@));
    assert(starts_with("/api/plan"@, "/api"@)) by {
        assert("/api/plan"@.take(4) =~= "/api"@);
    }
    assert("/api/plan"@ != "/api/info"@) by {
        assert("/api/plan"@[5] != "/api/info"@[5]);
    }
    assert("/api/plan"@ != "/api/poll"@) by {
        assert("/api/plan"@[6] != "/api/poll"@[6]);
    }
    assert(route_spec("GET"@, "/api/plan"@) == fixed_route("GET"@, "/api/plan"@));
    assert(starts_with("/api/artifacts"@, "/api"@)) by {
        assert("/api/artifacts"@.take(4) =~= "/api"@);
    }
    assert(!starts_with("/api/artifacts"@, "/api/builds/"@)) by {
        assert("/api/artifacts"@.take(12)[5] != "/api/builds/"@[5]);
    }
    assert(!starts_with("/api/artifacts"@, "/api/tasks/"@)) by {
        assert("/api/artifacts"@.take(11)[5] != "/api/tasks/"@[5]);
    }
    assert(route_spec("GET"@, "/api/artifacts"@) == fixed_route("GET"@, "/api/artifacts"@));
    assert(starts_with("/api/builds"@, "/api"@)) by {
        assert("/api/builds"@.take(4) =~= "/api"@);
    }
    assert("/api/builds"@ != "/api/events"@) by {
        assert("/api/builds"@[5] != "/api/events"@[5]);
    }
    assert("/api/builds"@ != "/api/layout"@) by {
        assert("/api/builds"@[5] != "/api/layout"@[5]);
    }
    assert(!starts_with("/api/builds"@, "/api/tasks/"@)) by {
        assert("/api/builds"@.take(11)[5] != "/api/tasks/"@[5]);
    }
    assert(route_spec("GET"@, "/api/builds"@) == fixed_route("GET"@, "/api/builds"@));
    assert(starts_with("/api/build/tasks"@, "/api"@)) by {
        assert("/api/build/tasks"@.take(4) =~= "/api"@);
    }
    assert(!starts_with("/api/build/tasks"@, "/api/builds/"@)) by {
        assert("/api/build/tasks"@.take(12)[10] != "/api/builds/"@[10]);
    }
    assert(!starts_with("/api/build/tasks"@, "/api/tasks/"@)) by {
        assert("/api/build/tasks"@.take(11)[5] != "/api/tasks/"@[5]);
    }
    assert(route_spec("GET"@, "/api/build/tasks"@) == fixed_route("GET"@, "/api/build/tasks"@));
    assert(starts_with("/api/tasks"@, "/api"@)) by {
        assert("/api/tasks"@.take(4) =~= "/api"@);
    }
    assert(route_spec("GET"@, "/api/tasks"@) == fixed_route("GET"@, "/api/tasks"@));
    assert(starts_with("/api/revisions"@, "/api"@)) by {
        assert("/api/revisions"@.take(4) =~= "/api"@);
    }
    assert("/api/revisions"@ != "/api/artifacts"@) by {
        assert("/api/revisions"@[5] != "/api/artifacts"@[5]);
    }
    assert(!starts_with("/api/revisions"@, "/api/builds/"@)) by {
        assert("/api/revisions"@.take(12)[5] != "/api/builds/"@[5]);
    }
    assert(!starts_with("/api/revisions"@, "/api/tasks/"@)) by {
        assert("/api/revisions"@.take(11)[5] != "/api/tasks/"@[5]);
    }
    assert(route_spec("GET"@, "/api/revisions"@) == fixed_route("GET"@, "/api/revisions"@));
    assert(starts_with("/api/plugins"@, "/api"@)) by {
        assert("/api/plugins"@.take(4) =~= "/api"@);
    }
    assert("/api/plugins"@ != "/api/project"@) by {
        assert("/api/plugins"@[6] != "/api/project"@[6]);
    }
    assert("/api/plugins"@ != "/api/deptree"@) by {
        assert("/api/plugins"@[5] != "/api/deptree"@[5]);
    }
    assert(!starts_with("/api/plugins"@, "/api/builds/"@)) by {
        assert("/api/plugins"@.take(12)[5] != "/api/builds/"@[5]);
    }
    assert(!starts_with("/api/plugins"@, "/api/tasks/"@)) by {
        assert("/api/plugins"@.take(11)[5] != "/api/tasks/"@[5]);
    }
    assert(route_spec("GET"@, "/api/plugins"@) == fixed_route("GET"@, "/api/plugins"@));
    assert(starts_with("/api/system"@, "/api"@)) by {
        assert("/api/system"@.take(4) =~= "/api"@);
    }
    assert("/api/system"@ != "/api/events"@) by {
        assert("/api/system"@[5] != "/api/events"@[5]);
    }
    assert("/api/system"@ != "/api/layout"@) by {
        assert("/api/system"@[5] != "/api/layout"@[5]);
    }
    assert("/api/system"@ != "/api/builds"@) by {
        assert("/api/system"@[5] != "/api/builds"@[5]);
    }
    assert(!starts_with("/api/system"@, "/api/tasks/"@)) by {
        assert("/api/system"@.take(11)[5] != "/api/tasks/"@[5]);
    }
    assert(route_spec("GET"@, "/api/system"@) == fixed_route("GET"@, "/api/system"@));
    assert(starts_with("/api/cache"@, "/api"@)) by {
        assert("/api/cache"@.take(4) =~= "/api"@);
    }
    assert("/api/cache"@ != "/api/tasks"@) by {
        assert("/api/cache"@[5] != "/api/tasks"@[5]);
    }
    assert(route_spec("GET"@, "/api/cache"@) == fixed_route("GET"@, "/api/cache"@));
    assert(starts_with("/api/project"@, "/api"@)) by {
        assert("/api/project"@.take(4) =~= "/api"@);
    }
    assert(!starts_with("/api/project"@, "/api/tasks/"@)) by {
        assert("/api/project"@.take(11)[5] != "/api/tasks/"@[5]);
    }
    assert(route_spec("POST"@, "/api/project"@) == fixed_route("POST"@, "/api/project"@));
    assert(starts_with("/api/dependency"@, "/api"@)) by {
        assert("/api/dependency"@.take(4) =~= "/api"@);
    }
    assert(!starts_with("/api/dependency"@, "/api/tasks/"@)) by {
        assert("/api/dependency"@.take(11)[5] != "/api/tasks/"@[5]);
    }
    assert(route_spec("POST"@, "/api/dependency"@) == fixed_route("POST"@, "/api/dependency"@));
    assert(starts_with("/api/layout/preview"@, "/api"@)) by {
        assert("/api/layout/preview"@.take(4) =~= "/api"@);
    }
    assert(!starts_with("/api/layout/preview"@, "/api/tasks/"@)) by {
        assert("/api/layout/preview"@.take(11)[5] != "/api/tasks/"@[5]);
    }
    assert(route_spec("POST"@, "/api/layout/preview"@) == fixed_route("POST"@, "/api/layout/preview"@));
    assert(starts_with("/api/layout/save"@, "/api"@)) by {
        assert("/api/layout/save"@.take(4) =~= "/api"@);
    }
    assert(!starts_with("/api/layout/save"@, "/api/tasks/"@)) by {
        assert("/api/layout/save"@.take(11)[5] != "/api/tasks/"@[5]);
    }
    assert(route_spec("POST"@, "/api/layout/save"@) == fixed_route("POST"@, "/api/layout/save"@));
    assert(starts_with("/api/build"@, "/api"@)) by {
        assert("/api/build"@.take(4) =~= "/api"@);
    }
    assert(route_spec("POST"@, "/api/build"@) == fixed_route("POST"@, "/api/build"@));
    assert(starts_with("/api/build/cancel"@, "/api"@)) by {
        assert("/api/build/cancel"@.take(4) =~= "/api"@);
    }
    assert(!starts_with("/api/build/cancel"@, "/api/tasks/"@)) by {
        assert("/api/build/cancel"@.take(11)[5] != "/api/tasks/"@[5]);
    }
    assert(route_spec("POST"@, "/api/build/cancel"@) == fixed_route("POST"@, "/api/build/cancel"@));
    assert(starts_with("/api/cache/clear"@, "/api"@)) by {
        assert("/api/cache/clear"@.take(4) =~= "/api"@);
    }
    assert("/api/cache/clear"@ != "/api/layout/save"@) by {
        assert("/api/cache/clear"@[5] != "/api/layout/save"@[5]);
    }
    assert(!starts_with("/api/cache/clear"@, "/api/tasks/"@)) by {
        assert("/api/cache/clear"@.take(11)[5] != "/api/tasks/"@[5]);
    }
    assert(route_spec("POST"@, "/api/cache/clear"@) == fixed_route("POST"@, "/api/cache/clear"@));
    assert(starts_with("/api/tasks/cancel-all"@, "/api"@)) by {
        assert("/api/tasks/cancel-all"@.take(4) =~= "/api"@);
    }
    assert(starts_with("/api/tasks/cancel-all"@, "/api/tasks/"@)) by {
        assert("/api/tasks/cancel-all"@.take(11) =~= "/api/tasks/"@);
    }
    assert("/api/tasks/cancel-all"@.skip(11) =~= "cancel-all"@) by {
        reveal_strlit("cancel-all");
    }
    reveal_strlit("cancel-all");
    assert(!crate::text::ends_with("cancel-all"@, "/cancel"@)) by {
        assert("cancel-all"@.skip(3)[0] != "/cancel"@[0]);
    }
    assert("/api/poll"@ != "/api/info"@) by {
        assert("/api/poll"@[5] != "/api/info"@[5]);
    }
    assert(starts_with("/api/info"@, "/api"@)) by {
        assert("/api/info"@.take(4) =~= "/api"@);
    }
    assert(starts_with("/api/poll"@, "/api"@)) by {
        assert("/api/poll"@.take(4) =~= "/api"@);
    }
}

/// Outside `/api`, a GET serves a page or file of the web UI and any other
/// method is refused.
pub proof fn law_pages_outside_the_api(method: Seq<char>, path: Seq<char>)
    requires
        !starts_with(path, "/api"@),
    ensures
        method == "GET"@ ==> route_spec(method, path) == Route::Spa,
        method != "GET"@ ==> route_spec(method, path) == Route::MethodNotAllowed,
{
    reveal_strlit("/api");
    reveal_strlit("/api/events");
    if path == "/api/events"@ {
        assert(path.take(4) =~= "/api"@);
    }
}

/// `GET /api/tasks/N` asks for the details of activity N and
/// `POST /api/tasks/N/cancel` cancels it, for every activity id N.
pub proof fn law_task_routes_carry_the_id(n: u64)
    ensures
        route_spec("GET"@, "/api/tasks/"@ + decimal(n as nat)) == Route::TaskDetail(n),
        route_spec("POST"@, "/api/tasks/"@ + decimal(n as nat) + "/cancel"@) == Route::TaskCancel(n),
{
    reveal_strlit("GET");
    reveal_strlit("POST");
    reveal_strlit("/api");
    reveal_strlit("/api/tasks/");
    reveal_strlit("/api/builds/");
    reveal_strlit("/api/events");
    reveal_strlit("/api/info");
    reveal_strlit("/api/poll");
    reveal_strlit("/cancel");
    reveal_strlit("/log");
    reveal_strlit("/api/tasks/cancel-all");
    assert("POST"@.len() != "GET"@.len());
    lemma_decimal_digits(n as nat);
    lemma_parse_decimal(n);
    let d = decimal(n as nat);
    let prefix = "/api/tasks/"@;
    let get_path = prefix + d;
    assert(get_path.take(4) =~= "/api"@);
    assert(get_path.take(11) =~= prefix);
    assert(get_path.skip(11) =~= d);
    assert(!starts_with(get_path, "/api/builds/"@)) by {
        if get_path.len() >= 12 {
            assert(get_path.take(12)[6] != "/api/builds/"@[6]);
        }
    }
    assert(!d.contains('/')) by {
        if d.contains('/') {
            let j = choose|j: int| 0 <= j < d.len() && d[j] == '/';
            assert(is_digit(d[j]));
        }
    }
    assert(get_path != "/api/events"@) by {
        if get_path.len() == "/api/events"@.len() {
            assert(get_path[5] != "/api/events"@[5]);
        }
    }
    assert(get_path != "/api/info"@) by {
        if get_path.len() == "/api/info"@.len() {
            assert(get_path[5] != "/api/info"@[5]);
        }
    }
    assert(get_path != "/api/poll"@) by {
        if get_path.len() == "/api/poll"@.len() {
            assert(get_path[5] != "/api/poll"@[5]);
        }
    }
    let post_path = get_path + "/cancel"@;
    assert(post_path.take(4) =~= "/api"@);
    assert(post_path.take(11) =~= prefix);
    let rest = post_path.skip(11);
    assert(rest =~= d + "/cancel"@);
    assert(rest.skip(rest.len() - 7) =~= "/cancel"@);
    assert(rest.take(rest.len() - 7) =~= d);
    assert(post_path != "/api/events"@) by {
        assert(post_path[5] != "/api/events"@[5]);
    }
}

fn fixed_route_exec(method: &String, path: &String) -> (r: Route)
    ensures
        r == fixed_route(method@, path@),
{
    if eq_str(method, "GET") {
        if eq_str(path, "/api/project") {
            Route::GetProject
        } else if eq_str(path, "/api/dependencies") {
            Route::GetDependencies
        } else if eq_str(path, "/api/metadata") {
            Route::GetMetadata
        } else if eq_str(path, "/api/layout") {
            Route::GetLayout
        } else if eq_str(path, "/api/deptree") {
            Route::GetDeptree
        } else if eq_str(path, "/api/recipetree") {
            Route::GetRecipeTree
        } else if eq_str(path, "/api/plan") {
            Route::GetPlan
        } else if eq_str(path, "/api/artifacts") {
            Route::GetArtifacts
        } else if eq_str(path, "/api/builds") {
            Route::GetBuilds
        } else if eq_str(path, "/api/build/tasks") {
            Route::GetBuildTasks
        } else if eq_str(path, "/api/tasks") {
            Route::GetTasks
        } else if eq_str(path, "/api/revisions") {
            Route::GetRevisions
        } else if eq_str(path, "/api/plugins") {
            Route::GetPlugins
        } else if eq_str(path, "/api/system") {
            Route::GetSystem
        } else if eq_str(path, "/api/cache") {
            Route::GetCache
        } else {
            Route::NotFound
        }
    } else if eq_str(method, "POST") {
        if eq_str(path, "/api/project") {
            Route::PostProject
        } else if eq_str(path, "/api/dependency") {
            Route::PostDependency
        } else if eq_str(path, "/api/layout/preview") {
            Route::PostLayoutPreview
        } else if eq_str(path, "/api/layout/save") {
            Route::PostLayoutSave
        } else if eq_str(path, "/api/build") {
            Route::PostBuild
        } else if eq_str(path, "/api/build/cancel") {
            Route::PostBuildCancel
        } else if eq_str(path, "/api/cache/clear") {
            Route::PostCacheClear
        } else {
            Route::NotFound
        }
    } else {
        Route::NotFound
    }
}

/// Which handler serves `method` on `path`.
pub fn route_request(method: &str, path: &str) -> (r: Route)
    ensures
        r == route_spec(method@, path@),
        method@ == "GET"@ && path@ == "/api/project"@ ==> r == Route::GetProject,
        method@ == "GET"@ && path@ == "/api/dependencies"@ ==> r == Route::GetDependencies,
        method@ == "GET"@ && path@ == "/api/metadata"@ ==> r == Route::GetMetadata,
        method@ == "GET"@ && path@ == "/api/layout"@ ==> r == Route::GetLayout,
        method@ == "GET"@ && path@ == "/api/deptree"@ ==> r == Route::GetDeptree,
        method@ == "GET"@ && path@ == "/api/recipetree"@ ==> r == Route::GetRecipeTree,
        method@ == "GET"@ && path@ == "/api/plan"@ ==> r == Route::GetPlan,
        method@ == "GET"@ && path@ == "/api/artifacts"@ ==> r == Route::GetArtifacts,
        method@ == "GET"@ && path@ == "/api/builds"@ ==> r == Route::GetBuilds,
        method@ == "GET"@ && path@ == "/api/build/tasks"@ ==> r == Route::GetBuildTasks,
        method@ == "GET"@ && path@ == "/api/tasks"@ ==> r == Route::GetTasks,
        method@ == "GET"@ && path@ == "/api/revisions"@ ==> r == Route::GetRevisions,
        method@ == "GET"@ && path@ == "/api/plugins"@ ==> r == Route::GetPlugins,
        method@ == "GET"@ && path@ == "/api/system"@ ==> r == Route::GetSystem,
        method@ == "GET"@ && path@ == "/api/cache"@ ==> r == Route::GetCache,
        method@ == "GET"@ && path@ == "/api/events"@ ==> r == Route::Events,
        method@ == "GET"@ && path@ == "/api/info"@ ==> r == Route::Info,
        method@ == "GET"@ && path@ == "/api/poll"@ ==> r == Route::Poll,
        method@ == "POST"@ && path@ == "/api/project"@ ==> r == Route::PostProject,
        method@ == "POST"@ && path@ == "/api/dependency"@ ==> r == Route::PostDependency,
        method@ == "POST"@ && path@ == "/api/layout/preview"@ ==> r == Route::PostLayoutPreview,
        method@ == "POST"@ && path@ == "/api/layout/save"@ ==> r == Route::PostLayoutSave,
        method@ == "POST"@ && path@ == "/api/build"@ ==> r == Route::PostBuild,
        method@ == "POST"@ && path@ == "/api/build/cancel"@ ==> r == Route::PostBuildCancel,
        method@ == "POST"@ && path@ == "/api/cache/clear"@ ==> r == Route::PostCacheClear,
        method@ == "POST"@ && path@ == "/api/tasks/cancel-all"@ ==> r == Route::CancelAllTasks,
        !starts_with(path@, "/api"@) && method@ == "GET"@ ==> r == Route::Spa,
        !starts_with(path@, "/api"@) && method@ != "GET"@ ==> r == Route::MethodNotAllowed,
{
    proof {
        lemma_fixed_routes();
        if !starts_with(path@, "/api"@) {
            law_pages_outside_the_api(method@, path@);
        }
    }
    let m = String::from_str(method);
    let p = String::from_str(path);
    let is_get = eq_str(&m, "GET");
    let is_post = eq_str(&m, "POST");
    if is_get && eq_str(&p, "/api/events") {
        return Route::Events;
    }
    let chars = chars_of(path);
    let api = chars_of("/api");
    if starts_with_exec(&chars, &api) {
        if is_get && eq_str(&p, "/api/info") {
            return Route::Info;
        }
        if is_get && eq_str(&p, "/api/poll") {
            return Route::Poll;
        }
        if is_get {
            if let Some(id) = build_log_id(path) {
                return Route::BuildLog(id);
            }
            if let Some(id) = task_detail_id(path) {
                return Route::TaskDetail(id);
            }
        }
        if is_post {
            if let Some(id) = task_cancel_id(path) {
                return Route::TaskCancel(id);
            }
            if eq_str(&p, "/api/tasks/cancel-all") {
                return Route::CancelAllTasks;
            }
        }
        return fixed_route_exec(&m, &p);
    }
    if is_get {
        Route::Spa
    } else {
        Route::MethodNotAllowed
    }
}

} // verus!
