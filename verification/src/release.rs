//! `--update`: choosing the release to install and the asset to download.

use vstd::prelude::*;

use crate::order::{
    lemma_less_asymmetric, lemma_less_irreflexive, lemma_less_total, lemma_less_transitive, seq_less,
    string_less,
};
use crate::text::{
    decimal, is_digit, lemma_decimal_digits, lemma_parse_decimal, chars_of, eq_str, parse_u64, parse_u64_spec, string_of, trim_start_char, trim_start_char_exec,
    views,
};

verus! {

pub const DEFAULT_REPO: &'static str = "DraviaVemal/BitForge";

/// A published release.
#[derive(Debug)]
pub struct Release {
    pub tag_name: String,
    pub prerelease: bool,
    pub draft: bool,
    pub published_at: String,
    pub assets: Vec<ReleaseAsset>,
}

/// A file attached to a release.
#[derive(Debug)]
pub struct ReleaseAsset {
    pub name: String,
    pub browser_download_url: String,
}

// ---------------------------------------------------------------------------
// Choosing a release
// ---------------------------------------------------------------------------

/// The index of the latest non-draft release whose pre-release flag is
/// `pre` (by `published_at`, the last of equals), or `-1`.
pub open spec fn latest_where(rs: Seq<Release>, pre: bool) -> int
    decreases rs.len(),
{
    if rs.len() == 0 {
        -1
    } else {
        let b = latest_where(rs.drop_last(), pre);
        let r = rs.last();
        if !r.draft && r.prerelease == pre && (b < 0 || !seq_less(
            r.published_at@,
            rs[b].published_at@,
        )) {
            rs.len() - 1
        } else {
            b
        }
    }
}

pub proof fn lemma_latest_where_range(rs: Seq<Release>, pre: bool)
    ensures
        -1 <= latest_where(rs, pre) < rs.len(),
        latest_where(rs, pre) >= 0 ==> !rs[latest_where(rs, pre)].draft
            && rs[latest_where(rs, pre)].prerelease == pre,
    decreases rs.len(),
{
    if rs.len() > 0 {
        lemma_latest_where_range(rs.drop_last(), pre);
        let b = latest_where(rs.drop_last(), pre);
        if b >= 0 {
            assert(rs[b] == rs.drop_last()[b]);
        }
    }
}

/// The release to install: the latest stable one, or with `beta` the
/// latest of the latest stable and the latest pre-release (stable on a tie).
pub open spec fn chosen_release(rs: Seq<Release>, beta: bool) -> int {
    let s = latest_where(rs, false);
    if !beta {
        s
    } else {
        let p = latest_where(rs, true);
        if s >= 0 && p >= 0 {
            if seq_less(rs[s].published_at@, rs[p].published_at@) {
                p
            } else {
                s
            }
        } else if s < 0 {
            p
        } else {
            s
        }
    }
}

proof fn lemma_latest_where_is_latest(rs: Seq<Release>, pre: bool)
    ensures
        latest_where(rs, pre) < 0 ==> forall|j: int|
            0 <= j < rs.len() ==> (#[trigger] rs[j]).draft || rs[j].prerelease != pre,
        latest_where(rs, pre) >= 0 ==> forall|j: int|
            0 <= j < rs.len() && !(#[trigger] rs[j]).draft && rs[j].prerelease == pre ==> !seq_less(
                rs[latest_where(rs, pre)].published_at@,
                rs[j].published_at@,
            ),
    decreases rs.len(),
{
    if rs.len() > 0 {
        let t = rs.drop_last();
        lemma_latest_where_is_latest(t, pre);
        lemma_latest_where_range(t, pre);
        let b = latest_where(t, pre);
        let n = rs.len() - 1;
        let r = rs[n];
        if !r.draft && r.prerelease == pre && (b < 0 || !seq_less(r.published_at@, rs[b].published_at@)) {
            assert forall|j: int|
                0 <= j < rs.len() && !(#[trigger] rs[j]).draft && rs[j].prerelease == pre implies !seq_less(
                    r.published_at@,
                    rs[j].published_at@,
                ) by {
                if j < n {
                    assert(t[j] == rs[j]);
                    assert(b >= 0);
                    assert(t[b] == rs[b]);
                    if seq_less(r.published_at@, rs[j].published_at@) {
                        lemma_less_total(r.published_at@, rs[b].published_at@);
                        if r.published_at@ == rs[b].published_at@ {
                        } else {
                            lemma_less_transitive(rs[b].published_at@, r.published_at@, rs[j].published_at@);
                        }
                    }
                } else {
                    lemma_less_irreflexive(r.published_at@);
                }
            }
        } else {
            if b >= 0 {
                assert(t[b] == rs[b]);
            }
            assert forall|j: int|
                0 <= j < rs.len() && !(#[trigger] rs[j]).draft && rs[j].prerelease == pre implies b >= 0
                    && !seq_less(rs[b].published_at@, rs[j].published_at@) by {
                if j < n {
                    assert(t[j] == rs[j]);
                } else {
                    lemma_less_total(r.published_at@, rs[b].published_at@);
                    if seq_less(rs[b].published_at@, r.published_at@) {
                        lemma_less_asymmetric(rs[b].published_at@, r.published_at@);
                    }
                }
            }
            assert forall|j: int| 0 <= j < rs.len() implies (#[trigger] rs[j]).draft
                || rs[j].prerelease != pre || b >= 0 by {
                if j < n {
                    assert(t[j] == rs[j]);
                }
            }
        }
    }
}

/// An update installs a release it may install, and none it may install was
/// published later: without `beta` the latest stable release, with it the
/// latest release that is not a draft, stable or pre-release. Nothing is
/// chosen only when no release may be installed.
pub proof fn law_update_installs_the_latest(rs: Seq<Release>, beta: bool)
    ensures
        ({
            let i = chosen_release(rs, beta);
            &&& -1 <= i < rs.len()
            &&& i >= 0 ==> !rs[i].draft && (!beta ==> !rs[i].prerelease)
            &&& i >= 0 ==> forall|j: int|
                0 <= j < rs.len() && !(#[trigger] rs[j]).draft && (beta || !rs[j].prerelease)
                    ==> !seq_less(rs[i].published_at@, rs[j].published_at@)
            &&& i < 0 ==> forall|j: int|
                0 <= j < rs.len() ==> (#[trigger] rs[j]).draft || (!beta && rs[j].prerelease)
        }),
{
    lemma_latest_where_range(rs, false);
    lemma_latest_where_range(rs, true);
    lemma_latest_where_is_latest(rs, false);
    lemma_latest_where_is_latest(rs, true);
    let s = latest_where(rs, false);
    let p = latest_where(rs, true);
    let i = chosen_release(rs, beta);
    if beta && s >= 0 && p >= 0 {
        let ss = rs[s].published_at@;
        let ps = rs[p].published_at@;
        assert forall|j: int|
            0 <= j < rs.len() && !(#[trigger] rs[j]).draft implies !seq_less(
                rs[i].published_at@,
                rs[j].published_at@,
            ) by {
            let js = rs[j].published_at@;
            if seq_less(ss, ps) {
                if !rs[j].prerelease && seq_less(ps, js) {
                    lemma_less_transitive(ss, ps, js);
                }
            } else {
                if rs[j].prerelease && seq_less(ss, js) {
                    lemma_less_total(ss, ps);
                    if seq_less(ps, ss) {
                        lemma_less_transitive(ps, ss, js);
                    }
                }
            }
        }
    }
}

proof fn lemma_pieces_without_separator(w: Seq<char>)
    requires
        forall|i: int| 0 <= i < w.len() ==> !is_version_sep(#[trigger] w[i]),
    ensures
        version_pieces(w) == seq![w],
    decreases w.len(),
{
    if w.len() > 0 {
        let t = w.drop_last();
        assert forall|i: int| 0 <= i < t.len() implies !is_version_sep(#[trigger] t[i]) by {
            assert(t[i] == w[i]);
        }
        lemma_pieces_without_separator(t);
        assert(!is_version_sep(w[w.len() - 1]));
        assert(t.push(w.last()) =~= w);
        assert(seq![t].update(0, t.push(w.last())) =~= seq![w]);
    } else {
        assert(w =~= Seq::<char>::empty());
    }
}

proof fn lemma_pieces_split_at_separator(x: Seq<char>, c: char, y: Seq<char>)
    requires
        is_version_sep(c),
    ensures
        version_pieces(x.push(c) + y) == version_pieces(x) + version_pieces(y),
    decreases y.len(),
{
    let s = x.push(c) + y;
    if y.len() == 0 {
        assert(s =~= x.push(c));
        assert(s.drop_last() =~= x);
        assert(version_pieces(x).push(Seq::empty()) =~= version_pieces(x) + seq![Seq::<char>::empty()]);
    } else {
        let y1 = y.drop_last();
        lemma_pieces_split_at_separator(x, c, y1);
        assert(s.drop_last() =~= x.push(c) + y1);
        assert(s.last() == y.last());
        let a = version_pieces(x);
        let b = version_pieces(y1);
        lemma_pieces_nonempty(y1);
        if is_version_sep(y.last()) {
            assert((a + b).push(Seq::empty()) =~= a + b.push(Seq::empty()));
        } else {
            let ab = a + b;
            assert(ab.last() == b.last());
            assert(ab.update(ab.len() - 1, ab.last().push(y.last())) =~= a + b.update(
                b.len() - 1,
                b.last().push(y.last()),
            ));
        }
    }
}

proof fn lemma_pieces_nonempty(s: Seq<char>)
    ensures
        version_pieces(s).len() >= 1,
    decreases s.len(),
{
    if s.len() > 0 {
        lemma_pieces_nonempty(s.drop_last());
    }
}

proof fn lemma_decimal_has_no_separator(n: nat)
    ensures
        forall|i: int| 0 <= i < decimal(n).len() ==> !is_version_sep(#[trigger] decimal(n)[i]),
        decimal(n)[0] != 'v',
{
    lemma_decimal_digits(n);
    assert forall|i: int| 0 <= i < decimal(n).len() implies !is_version_sep(#[trigger] decimal(n)[i]) by {
        assert(is_digit(decimal(n)[i]));
    }
    assert(is_digit(decimal(n)[0]));
}

/// A version written as three dot-separated numbers, with or without a
/// leading `v`, has those three numbers as its key, in order.
pub proof fn law_three_part_version_key(a: u64, b: u64, c: u64)
    ensures
        version_key_spec(decimal(a as nat) + seq!['.'] + decimal(b as nat) + seq!['.'] + decimal(
            c as nat,
        )) == seq![a, b, c],
        version_key_spec(seq!['v'] + decimal(a as nat) + seq!['.'] + decimal(b as nat) + seq!['.']
            + decimal(c as nat)) == seq![a, b, c],
{
    let da = decimal(a as nat);
    let db = decimal(b as nat);
    let dc = decimal(c as nat);
    lemma_decimal_has_no_separator(a as nat);
    lemma_decimal_has_no_separator(b as nat);
    lemma_decimal_has_no_separator(c as nat);
    lemma_parse_decimal(a);
    lemma_parse_decimal(b);
    lemma_parse_decimal(c);
    lemma_pieces_without_separator(da);
    lemma_pieces_without_separator(db);
    lemma_pieces_without_separator(dc);
    let s = da + seq!['.'] + db + seq!['.'] + dc;
    assert(s =~= da.push('.') + (db.push('.') + dc));
    lemma_pieces_split_at_separator(db, '.', dc);
    lemma_pieces_split_at_separator(da, '.', db.push('.') + dc);
    assert(version_pieces(s) =~= seq![da, db, dc]);
    assert(trim_start_char(s, 'v') == s) by {
        assert(s[0] == da[0]);
    }
    let f = |p: Seq<char>|
        match parse_u64_spec(p) {
            Some(n) => n,
            None => 0u64,
        };
    assert(seq![da, db, dc].map_values(f) =~= seq![a, b, c]);
    let sv = seq!['v'] + da + seq!['.'] + db + seq!['.'] + dc;
    assert(sv =~= seq!['v'] + s);
    assert(sv[0] == 'v');
    assert(sv.drop_first() =~= s);
    assert(trim_start_char(sv, 'v') == trim_start_char(s, 'v'));
}

fn latest_index(releases: &[Release], pre: bool) -> (r: Option<usize>)
    ensures
        match r {
            Some(i) => i as int == latest_where(releases@, pre),
            None => latest_where(releases@, pre) == -1,
        },
{
    let mut best: Option<usize> = None;
    let mut i: usize = 0;
    while i < releases.len()
        invariant
            i <= releases@.len(),
            match best {
                Some(b) => b < i && b as int == latest_where(releases@.take(i as int), pre),
                None => latest_where(releases@.take(i as int), pre) == -1,
            },
        decreases releases@.len() - i,
    {
        let ghost t = releases@.take(i + 1);
        assert(t.drop_last() =~= releases@.take(i as int));
        assert(t.last() == releases@[i as int]);
        let r = &releases[i];
        if !r.draft && r.prerelease == pre {
            match best {
                Some(b) => {
                    assert(t[b as int] == releases@[b as int]);
                    if !string_less(&r.published_at, &releases[b].published_at) {
                        best = Some(i);
                    }
                },
                None => {
                    best = Some(i);
                },
            }
        }
        i = i + 1;
    }
    assert(releases@.take(releases@.len() as int) =~= releases@);
    best
}

/// The release to install, if any.
pub fn choose_release(releases: &[Release], beta: bool) -> (r: Option<&Release>)
    ensures
        chosen_release(releases@, beta) < 0 ==> r is None,
        chosen_release(releases@, beta) >= 0 ==> (r matches Some(x) && *x == releases@[chosen_release(
            releases@,
            beta,
        )]),
{
    proof {
        lemma_latest_where_range(releases@, false);
        lemma_latest_where_range(releases@, true);
    }
    let stable = latest_index(releases, false);
    if !beta {
        return match stable {
            Some(s) => Some(&releases[s]),
            None => None,
        };
    }
    let pre = latest_index(releases, true);
    match (stable, pre) {
        (Some(s), Some(p)) => {
            if string_less(&releases[s].published_at, &releases[p].published_at) {
                Some(&releases[p])
            } else {
                Some(&releases[s])
            }
        },
        (None, Some(p)) => Some(&releases[p]),
        (Some(s), None) => Some(&releases[s]),
        (None, None) => None,
    }
}

/// A draft is never chosen, and without `beta` neither is a pre-release.
pub proof fn law_choice_is_published(rs: Seq<Release>, beta: bool)
    ensures
        chosen_release(rs, beta) >= 0 ==> !rs[chosen_release(rs, beta)].draft,
        chosen_release(rs, beta) >= 0 && !beta ==> !rs[chosen_release(rs, beta)].prerelease,
        chosen_release(rs, beta) < rs.len(),
{
    lemma_latest_where_range(rs, false);
    lemma_latest_where_range(rs, true);
}

// ---------------------------------------------------------------------------
// Versions
// ---------------------------------------------------------------------------

pub open spec fn is_version_sep(c: char) -> bool {
    c == '.' || c == '+' || c == '-'
}

/// The pieces of `s` between `.`, `+` and `-`.
pub open spec fn version_pieces(s: Seq<char>) -> Seq<Seq<char>>
    decreases s.len(),
{
    if s.len() == 0 {
        seq![Seq::empty()]
    } else if is_version_sep(s.last()) {
        version_pieces(s.drop_last()).push(Seq::empty())
    } else {
        let p = version_pieces(s.drop_last());
        p.update(p.len() - 1, p.last().push(s.last()))
    }
}

/// A version as numbers: without leading `v`s, split at `.`, `+` and `-`,
/// each piece read as a number (0 when it is not one).
pub open spec fn version_key_spec(version: Seq<char>) -> Seq<u64> {
    version_pieces(trim_start_char(version, 'v')).map_values(
        |p: Seq<char>|
            match parse_u64_spec(p) {
                Some(n) => n,
                None => 0u64,
            },
    )
}

/// Lexicographic order of number sequences (a proper prefix is smaller).
pub open spec fn key_less(a: Seq<u64>, b: Seq<u64>) -> bool
    decreases a.len(),
{
    if a.len() == 0 {
        b.len() > 0
    } else if b.len() == 0 {
        false
    } else if a[0] != b[0] {
        a[0] < b[0]
    } else {
        key_less(a.drop_first(), b.drop_first())
    }
}

/// Version keys are ordered piece by piece: a key is smaller when, at the
/// first piece where the two differ, its piece is smaller, or when it is a
/// proper prefix of the other (`1.2` before `1.2.1`).
pub proof fn law_key_order_is_lexicographic(a: Seq<u64>, b: Seq<u64>)
    ensures
        key_less(a, b) <==> ((exists|i: int|
            #![trigger a[i], b[i]]
            0 <= i < a.len() && i < b.len() && a.take(i) == b.take(i) && a[i] < b[i]) || (a.len()
            < b.len() && b.take(a.len() as int) == a)),
    decreases a.len(),
{
    if a.len() == 0 {
        assert(b.take(0) =~= a);
    } else if b.len() == 0 {
    } else if a[0] != b[0] {
        if a[0] < b[0] {
            assert(a.take(0) =~= b.take(0));
            assert(a[0] < b[0]);
        } else {
            assert forall|i: int|
                #![trigger a[i], b[i]]
                0 <= i < a.len() && i < b.len() && a.take(i) == b.take(i) implies !(a[i] < b[i]) by {
                if i > 0 {
                    assert(a.take(i)[0] == b.take(i)[0]);
                }
            }
            if a.len() < b.len() && b.take(a.len() as int) == a {
                assert(b.take(a.len() as int)[0] == a[0]);
            }
        }
    } else {
        let a1 = a.drop_first();
        let b1 = b.drop_first();
        law_key_order_is_lexicographic(a1, b1);
        if key_less(a1, b1) {
            if exists|i: int|
                #![trigger a1[i], b1[i]]
                0 <= i < a1.len() && i < b1.len() && a1.take(i) == b1.take(i) && a1[i] < b1[i] {
                let i = choose|i: int|
                    #![trigger a1[i], b1[i]]
                    0 <= i < a1.len() && i < b1.len() && a1.take(i) == b1.take(i) && a1[i] < b1[i];
                assert(a.take(i + 1) =~= b.take(i + 1)) by {
                    assert forall|k: int| 0 <= k < i + 1 implies #[trigger] a.take(i + 1)[k] == b.take(i + 1)[k] by {
                        if k > 0 {
                            assert(a1.take(i)[k - 1] == b1.take(i)[k - 1]);
                        }
                    }
                }
                assert(a[i + 1] == a1[i] && b[i + 1] == b1[i]);
            } else {
                assert(b.take(a.len() as int) =~= a) by {
                    assert forall|k: int| 0 <= k < a.len() implies #[trigger] b.take(a.len() as int)[k] == a[k] by {
                        if k > 0 {
                            assert(b1.take(a1.len() as int)[k - 1] == a1[k - 1]);
                        }
                    }
                }
            }
        } else {
            assert forall|i: int|
                #![trigger a[i], b[i]]
                0 <= i < a.len() && i < b.len() && a.take(i) == b.take(i) implies !(a[i] < b[i]) by {
                if i > 0 && a[i] < b[i] {
                    assert(a1.take(i - 1) =~= b1.take(i - 1)) by {
                        assert forall|k: int| 0 <= k < i - 1 implies #[trigger] a1.take(i - 1)[k] == b1.take(i - 1)[k] by {
                            assert(a.take(i)[k + 1] == b.take(i)[k + 1]);
                        }
                    }
                    assert(a1[i - 1] == a[i] && b1[i - 1] == b[i]);
                }
            }
            if a.len() < b.len() && b.take(a.len() as int) == a {
                assert(b1.take(a1.len() as int) =~= a1) by {
                    assert forall|k: int| 0 <= k < a1.len() implies #[trigger] b1.take(a1.len() as int)[k] == a1[k] by {
                        assert(b.take(a.len() as int)[k + 1] == a[k + 1]);
                    }
                }
            }
        }
    }
}

pub fn version_key(version: &str) -> (r: Vec<u64>)
    ensures
        r@ == version_key_spec(version@),
{
    let chars = chars_of(version);
    let s = trim_start_char_exec(&chars, 'v');
    let mut pieces: Vec<Vec<char>> = Vec::new();
    let mut cur: Vec<char> = Vec::new();
    let ghost mut done: Seq<Seq<char>> = Seq::empty();
    let mut i: usize = 0;
    assert(s@.take(0) =~= Seq::<char>::empty());
    assert(version_pieces(s@.take(0)) =~= done.push(cur@));
    while i < s.len()
        invariant
            i <= s@.len(),
            version_pieces(s@.take(i as int)) == done.push(cur@),
            views(pieces@) == done,
        decreases s@.len() - i,
    {
        let c = s[i];
        assert(s@.take(i + 1).drop_last() =~= s@.take(i as int));
        if c == '.' || c == '+' || c == '-' {
            let ghost piece = cur@;
            let ghost before = pieces@;
            pieces.push(cur);
            assert(views(pieces@) =~= views(before).push(piece));
            proof {
                done = done.push(piece);
            }
            cur = Vec::new();
            assert(version_pieces(s@.take(i + 1)) =~= done.push(cur@));
        } else {
            let ghost p = done.push(cur@);
            cur.push(c);
            assert(version_pieces(s@.take(i + 1)) =~= p.update(p.len() - 1, p.last().push(c)));
            assert(p.update(p.len() - 1, p.last().push(c)) =~= done.push(cur@));
        }
        i = i + 1;
    }
    assert(s@.take(s@.len() as int) =~= s@);
    let ghost before = pieces@;
    pieces.push(cur);
    assert(views(pieces@) =~= views(before).push(cur@));
    let ghost all = views(pieces@);
    let mut key: Vec<u64> = Vec::new();
    let mut k: usize = 0;
    while k < pieces.len()
        invariant
            k <= pieces@.len(),
            all == views(pieces@),
            all == version_pieces(trim_start_char(version@, 'v')),
            key@ == all.take(k as int).map_values(
                |p: Seq<char>|
                    match parse_u64_spec(p) {
                        Some(n) => n,
                        None => 0u64,
                    },
            ),
        decreases pieces@.len() - k,
    {
        let n = match parse_u64(&pieces[k]) {
            Some(n) => n,
            None => 0,
        };
        key.push(n);
        k = k + 1;
        assert(key@ =~= all.take(k as int).map_values(
            |p: Seq<char>|
                match parse_u64_spec(p) {
                    Some(n) => n,
                    None => 0u64,
                },
        ));
    }
    assert(all.take(all.len() as int) =~= all);
    key
}

fn key_less_exec(a: &Vec<u64>, b: &Vec<u64>) -> (r: bool)
    ensures
        r == key_less(a@, b@),
{
    let mut i: usize = 0;
    assert(a@.skip(0) =~= a@);
    assert(b@.skip(0) =~= b@);
    while i < a.len() && i < b.len()
        invariant
            i <= a@.len(),
            i <= b@.len(),
            key_less(a@, b@) == key_less(a@.skip(i as int), b@.skip(i as int)),
        decreases a@.len() - i,
    {
        let ghost sa = a@.skip(i as int);
        let ghost sb = b@.skip(i as int);
        assert(sa[0] == a@[i as int] && sb[0] == b@[i as int]);
        if a[i] != b[i] {
            return a[i] < b[i];
        }
        assert(sa.drop_first() =~= a@.skip(i + 1));
        assert(sb.drop_first() =~= b@.skip(i + 1));
        i = i + 1;
    }
    let ghost sa = a@.skip(i as int);
    let ghost sb = b@.skip(i as int);
    assert(i == a@.len() ==> sa.len() == 0);
    assert(i == b@.len() ==> sb.len() == 0);
    i == a.len() && i < b.len()
}

/// `candidate` comes after `current` piece by piece: at the first piece
/// where they differ the candidate's is larger, or `current` is a proper
/// prefix of it.
pub open spec fn newer_by_pieces(candidate: Seq<u64>, current: Seq<u64>) -> bool {
    ||| exists|i: int|
        #![trigger current[i], candidate[i]]
        0 <= i < current.len() && i < candidate.len() && current.take(i) == candidate.take(i)
            && current[i] < candidate[i]
    ||| current.len() < candidate.len() && candidate.take(current.len() as int) == current
}

/// Whether `candidate` is a later version than `current`.
pub fn is_newer(candidate: &str, current: &str) -> (r: bool)
    ensures
        r == key_less(version_key_spec(current@), version_key_spec(candidate@)),
        r <==> newer_by_pieces(version_key_spec(candidate@), version_key_spec(current@)),
{
    let c = version_key(candidate);
    let k = version_key(current);
    proof {
        law_key_order_is_lexicographic(version_key_spec(current@), version_key_spec(candidate@));
    }
    key_less_exec(&k, &c)
}

proof fn lemma_key_less_irreflexive(a: Seq<u64>)
    ensures
        !key_less(a, a),
    decreases a.len(),
{
    if a.len() > 0 {
        lemma_key_less_irreflexive(a.drop_first());
    }
}

/// No version is newer than itself.
pub proof fn law_not_newer_than_itself(version: Seq<char>)
    ensures
        !key_less(version_key_spec(version), version_key_spec(version)),
{
    lemma_key_less_irreflexive(version_key_spec(version));
}

// ---------------------------------------------------------------------------
// The download
// ---------------------------------------------------------------------------

/// The operating-system part of an asset name (`std::env::consts::OS`).
pub open spec fn os_part(os: Seq<char>) -> Seq<char> {
    if os == "linux"@ {
        "linux"@
    } else if os == "macos"@ {
        "darwin"@
    } else {
        "unknown"@
    }
}

/// The architecture part of an asset name (`std::env::consts::ARCH`).
pub open spec fn arch_part(arch: Seq<char>) -> Seq<char> {
    if arch == "x86_64"@ {
        "x86_64"@
    } else if arch == "aarch64"@ {
        "aarch64"@
    } else {
        "unknown"@
    }
}

/// The asset built for the given operating system and architecture.
pub fn asset_name(os: &str, arch: &str) -> (r: String)
    ensures
        r@ == "bitforge-"@ + os_part(os@) + "-"@ + arch_part(arch@),
{
    let o = String::from_str(os);
    let a = String::from_str(arch);
    let os_text = if eq_str(&o, "linux") {
        "linux"
    } else if eq_str(&o, "macos") {
        "darwin"
    } else {
        "unknown"
    };
    let arch_text = if eq_str(&a, "x86_64") {
        "x86_64"
    } else if eq_str(&a, "aarch64") {
        "aarch64"
    } else {
        "unknown"
    };
    let mut s = String::from_str("bitforge-");
    s.append(os_text);
    s.append("-");
    s.append(arch_text);
    s
}

/// Why an update cannot be made.
#[derive(Debug)]
pub enum UpdateError {
    /// No release qualifies.
    NoRelease { repo: String },
    /// The chosen release has no asset for this machine.
    NoAsset { tag: String, asset: String },
}

impl UpdateError {
    pub open spec fn message_spec(&self) -> Seq<char> {
        match self {
            UpdateError::NoRelease { repo } => "no suitable release found for "@ + repo@,
            UpdateError::NoAsset { tag, asset } => "release "@ + tag@ + " has no asset '"@ + asset@
                + "'"@,
        }
    }

    pub fn message(&self) -> (r: String)
        ensures
            r@ == self.message_spec(),
    {
        match self {
            UpdateError::NoRelease { repo } => {
                let mut s = String::from_str("no suitable release found for ");
                s.append(repo.as_str());
                s
            },
            UpdateError::NoAsset { tag, asset } => {
                let mut s = String::from_str("release ");
                s.append(tag.as_str());
                s.append(" has no asset '");
                s.append(asset.as_str());
                s.append("'");
                s
            },
        }
    }
}

/// What `--update` does.
#[derive(Debug)]
pub enum UpdatePlan {
    /// The running version is the latest.
    UpToDate,
    /// Download `url` to install version `latest`.
    Download { latest: String, url: String },
}

/// The index of the first asset named `name`, or `-1`.
pub open spec fn asset_index(assets: Seq<ReleaseAsset>, name: Seq<char>) -> int
    decreases assets.len(),
{
    if assets.len() == 0 {
        -1
    } else {
        let r = asset_index(assets.drop_last(), name);
        if r >= 0 {
            r
        } else if assets.last().name@ == name {
            assets.len() - 1
        } else {
            -1
        }
    }
}

proof fn lemma_asset_index_prefix(assets: Seq<ReleaseAsset>, name: Seq<char>, n: int)
    requires
        0 < n <= assets.len(),
        asset_index(assets.take(n), name) >= 0,
    ensures
        asset_index(assets, name) == asset_index(assets.take(n), name),
    decreases assets.len() - n,
{
    if n < assets.len() {
        assert(assets.take(n + 1).drop_last() =~= assets.take(n));
        lemma_asset_index_prefix(assets, name, n + 1);
    } else {
        assert(assets.take(n) =~= assets);
    }
}

/// Decides `--update` from the published releases: the chosen release's
/// version (its tag without leading `v`s) is compared with `current`, and a
/// newer one is downloaded from its asset named `asset`.
pub fn plan_update(
    releases: &[Release],
    beta: bool,
    current: &str,
    asset: &str,
    repo: &str,
) -> (r: Result<UpdatePlan, UpdateError>)
    ensures
        ({
            let i = chosen_release(releases@, beta);
            if i < 0 {
                r matches Err(UpdateError::NoRelease { repo: x }) && x@ == repo@
            } else {
                let rel = releases@[i];
                let latest = trim_start_char(rel.tag_name@, 'v');
                if !key_less(version_key_spec(current@), version_key_spec(latest)) {
                    r matches Ok(UpdatePlan::UpToDate)
                } else {
                    let k = asset_index(rel.assets@, asset@);
                    if k < 0 {
                        r matches Err(UpdateError::NoAsset { tag, asset: a }) && tag@
                            == rel.tag_name@ && a@ == asset@
                    } else {
                        r matches Ok(UpdatePlan::Download { latest: l, url }) && l@ == latest
                            && url@ == rel.assets@[k].browser_download_url@
                    }
                }
            }
        }),
{
    let release = match choose_release(releases, beta) {
        Some(r) => r,
        None => {
            return Err(UpdateError::NoRelease { repo: String::from_str(repo) });
        },
    };
    let tag_chars = chars_of(release.tag_name.as_str());
    let latest_chars = trim_start_char_exec(&tag_chars, 'v');
    let latest = string_of(&latest_chars);
    if !is_newer(latest.as_str(), current) {
        return Ok(UpdatePlan::UpToDate);
    }
    let wanted = String::from_str(asset);
    let mut k: usize = 0;
    while k < release.assets.len()
        invariant
            k <= release.assets@.len(),
            wanted@ == asset@,
            chosen_release(releases@, beta) >= 0,
            *release == releases@[chosen_release(releases@, beta)],
            latest@ == trim_start_char(release.tag_name@, 'v'),
            key_less(version_key_spec(current@), version_key_spec(latest@)),
            asset_index(release.assets@.take(k as int), asset@) == -1,
        decreases release.assets@.len() - k,
    {
        assert(release.assets@.take(k + 1).drop_last() =~= release.assets@.take(k as int));
        assert(release.assets@.take(k + 1).last() == release.assets@[k as int]);
        if release.assets[k].name == wanted {
            proof {
                lemma_asset_index_prefix(release.assets@, asset@, k + 1);
            }
            return Ok(
                UpdatePlan::Download {
                    latest,
                    url: release.assets[k].browser_download_url.clone(),
                },
            );
        }
        k = k + 1;
    }
    assert(release.assets@.take(release.assets@.len() as int) =~= release.assets@);
    Err(UpdateError::NoAsset { tag: release.tag_name.clone(), asset: wanted })
}


/// The chosen stable (or pre-) release is the newest of its kind: no other
/// published release of that kind was published later.
pub proof fn law_latest_is_newest(rs: Seq<Release>, pre: bool)
    ensures
        latest_where(rs, pre) >= 0 ==> forall|i: int|
            0 <= i < rs.len() && !(#[trigger] rs[i]).draft && rs[i].prerelease == pre ==> !seq_less(
                rs[latest_where(rs, pre)].published_at@,
                rs[i].published_at@,
            ),
        latest_where(rs, pre) < 0 ==> forall|i: int|
            0 <= i < rs.len() ==> (#[trigger] rs[i]).draft || rs[i].prerelease != pre,
    decreases rs.len(),
{
    lemma_latest_where_range(rs, pre);
    if rs.len() > 0 {
        let t = rs.drop_last();
        law_latest_is_newest(t, pre);
        lemma_latest_where_range(t, pre);
        let b = latest_where(t, pre);
        let l = latest_where(rs, pre);
        let r = rs.last();
        assert forall|i: int| 0 <= i < rs.len() - 1 implies rs[i] == t[i] by {}
        if l >= 0 {
            assert forall|i: int|
                0 <= i < rs.len() && !(#[trigger] rs[i]).draft && rs[i].prerelease == pre implies !seq_less(
                rs[l].published_at@,
                rs[i].published_at@,
            ) by {
                if l == rs.len() - 1 {
                    if i == rs.len() - 1 {
                        crate::order::lemma_less_irreflexive(r.published_at@);
                    } else {
                        assert(rs[i] == t[i]);
                        if b >= 0 {
                            assert(t[b] == rs[b]);
                            assert(!seq_less(t[b].published_at@, t[i].published_at@));
                            assert(!seq_less(r.published_at@, t[b].published_at@));
                            if seq_less(r.published_at@, t[i].published_at@) {
                                crate::order::lemma_less_total(t[b].published_at@, t[i].published_at@);
                                if seq_less(t[i].published_at@, t[b].published_at@) {
                                    crate::order::lemma_less_transitive(
                                        r.published_at@,
                                        t[i].published_at@,
                                        t[b].published_at@,
                                    );
                                }
                            }
                        }
                    }
                } else {
                    assert(l == b);
                    assert(rs[l] == t[l]);
                    if i == rs.len() - 1 {
                        assert(seq_less(r.published_at@, t[b].published_at@));
                        crate::order::lemma_less_asymmetric(r.published_at@, t[b].published_at@);
                    } else {
                        assert(rs[i] == t[i]);
                    }
                }
            }
        }
    }
}
} // verus!
