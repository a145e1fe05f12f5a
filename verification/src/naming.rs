//! Folder and file naming rules.
//!
//! Convention: `Title [tmdb-{id}]` (Plex/Jellyfin compatible).

use unicode_normalization::UnicodeNormalization;
use vstd::prelude::*;

use crate::numfmt::{
    digits_i64, digits_of, fmt_i64, int_str, is_dec, is_decimal, is_digit,
    lemma_digits_of_shape, parse_digits_i64,
};
use crate::text::{
    chars_of, extend_chars, is_control, is_ctrl, is_whitespace, is_ws, slice_vec, string_of, trim,
    trim_end, trim_start,
    trim_bounds,
};

verus! {

// ---------------------------------------------------------------------------
// Canonical composition (NFC) — the one outside computation of this module.

/// What `unicode_normalization`'s NFC recomposition yields for a sequence of
/// characters.
pub uninterp spec fn nfc_of(s: Seq<char>) -> Seq<char>;

/// `input.nfc().collect::<String>()` from the `unicode-normalization` crate.
/// The contract names the result and claims only that it is a function of
/// the input characters.
#[verifier::external_body]
fn nfc(input: &str) -> (r: String)
    ensures
        r@ == nfc_of(input@),
{
    input.nfc().collect::<String>()
}

// ---------------------------------------------------------------------------
// Sanitizing

/// Characters that are illegal in Windows file/folder names.
pub open spec fn is_illegal(c: char) -> bool {
    c == '<' || c == '>' || c == ':' || c == '"' || c == '/' || c == '\\' || c == '|' || c
        == '?' || c == '*'
}

/// Control and illegal characters become a space; the rest stay.
pub open spec fn clean_char(c: char) -> char {
    if is_ctrl(c) || is_illegal(c) {
        ' '
    } else {
        c
    }
}

pub open spec fn cleaned(s: Seq<char>) -> Seq<char> {
    s.map_values(|c: char| clean_char(c))
}

/// Whitespace collapsing (`split_whitespace().join(" ")`): the
/// non-whitespace characters of `s` in order, with exactly one space
/// wherever a run of whitespace separates two of them, and none at
/// either end.
pub open spec fn collapse(s: Seq<char>) -> Seq<char>
    decreases s.len(),
{
    if s.len() == 0 {
        seq![]
    } else {
        let p = collapse(s.drop_last());
        let c = s.last();
        if is_ws(c) {
            p
        } else if s.len() >= 2 && is_ws(s[s.len() - 2]) && p.len() > 0 {
            p.push(' ').push(c)
        } else {
            p.push(c)
        }
    }
}

pub open spec fn is_dot_or_ws(c: char) -> bool {
    c == '.' || is_ws(c)
}

/// Trailing dots and whitespace removed (illegal at the end of a Windows
/// folder name).
pub open spec fn trim_trailing_spec(s: Seq<char>) -> Seq<char>
    decreases s.len(),
{
    if s.len() > 0 && is_dot_or_ws(s.last()) {
        trim_trailing_spec(s.drop_last())
    } else {
        s
    }
}

/// The sanitized form of an already NFC-composed string.
pub open spec fn sanitized(n: Seq<char>) -> Seq<char> {
    let t = trim_trailing_spec(collapse(cleaned(n)));
    if t.len() == 0 {
        seq!['_']
    } else {
        t
    }
}

/// The sanitized path segment for an arbitrary input.
pub open spec fn sanitize_spec(input: Seq<char>) -> Seq<char> {
    sanitized(nfc_of(input))
}

proof fn lemma_trim_trailing_cut(s: Seq<char>, j: int)
    requires
        0 <= j <= s.len(),
        forall|k: int| j <= k < s.len() ==> is_dot_or_ws(#[trigger] s[k]),
    ensures
        trim_trailing_spec(s) == trim_trailing_spec(s.subrange(0, j)),
    decreases s.len() - j,
{
    if j < s.len() {
        assert(s.drop_last() =~= s.subrange(0, s.len() - 1));
        lemma_trim_trailing_cut(s.drop_last(), j);
        assert(s.drop_last().subrange(0, j) =~= s.subrange(0, j));
    } else {
        assert(s.subrange(0, j) =~= s);
    }
}

/// Trailing dot/space removal (`trim_end_matches('.' or whitespace)`).
fn trim_trailing(v: &Vec<char>) -> (r: Vec<char>)
    ensures
        r@ == trim_trailing_spec(v@),
{
    let mut b: usize = v.len();
    while b > 0 && (v[b - 1] == '.' || is_whitespace(v[b - 1]))
        invariant
            b <= v.len(),
            forall|k: int| b <= k < v.len() ==> is_dot_or_ws(#[trigger] v@[k]),
        decreases b,
    {
        b = b - 1;
    }
    proof {
        lemma_trim_trailing_cut(v@, b as int);
        let u = v@.subrange(0, b as int);
        if u.len() > 0 {
            assert(u.last() == v@[b - 1]);
        }
    }
    slice_vec(v, 0, b)
}

/// Cleans and collapses the characters of `v`.
fn clean_and_collapse(v: &Vec<char>) -> (r: Vec<char>)
    ensures
        r@ == collapse(cleaned(v@)),
{
    let mut out: Vec<char> = Vec::new();
    let mut i: usize = 0;
    let mut prev_ws = false;
    while i < v.len()
        invariant
            i <= v.len(),
            out@ == collapse(cleaned(v@.subrange(0, i as int))),
            prev_ws == (i > 0 && is_ws(clean_char(v@[i - 1]))),
        decreases v.len() - i,
    {
        let c0 = v[i];
        let c = if is_control(c0) || c0 == '<' || c0 == '>' || c0 == ':' || c0 == '"' || c0
            == '/' || c0 == '\\' || c0 == '|' || c0 == '?' || c0 == '*' {
            ' '
        } else {
            c0
        };
        let ghost before = v@.subrange(0, i as int);
        let ghost after = v@.subrange(0, i + 1);
        proof {
            assert(after.drop_last() =~= before);
            assert(cleaned(after).drop_last() =~= cleaned(before));
            assert(cleaned(after).last() == c);
            if i > 0 {
                assert(cleaned(after)[cleaned(after).len() - 2] == clean_char(v@[i - 1]));
            }
        }
        let ws = is_whitespace(c);
        if ws {
        } else if prev_ws && out.len() > 0 {
            out.push(' ');
            out.push(c);
        } else {
            out.push(c);
        }
        prev_ws = ws;
        i = i + 1;
    }
    assert(v@.subrange(0, v.len() as int) =~= v@);
    out
}

/// Sanitize an already NFC-composed string: control and illegal
/// characters become spaces, whitespace runs collapse to one space,
/// trailing dots and spaces go, and an empty result becomes `_`.
pub fn sanitize_normalized(n: &str) -> (r: String)
    ensures
        r@ == sanitized(n@),
{
    let v = chars_of(n);
    let c = clean_and_collapse(&v);
    let t = trim_trailing(&c);
    if t.len() == 0 {
        let mut u: Vec<char> = Vec::new();
        u.push('_');
        assert(u@ =~= seq!['_']);
        string_of(&u)
    } else {
        string_of(&t)
    }
}

/// Sanitize a string for use as a single path segment (folder or filename
/// without extension). Never returns an empty string — falls back to `_`.
pub fn sanitize_segment(input: &str) -> (r: String)
    ensures
        r@ == sanitize_spec(input@),
        r@.len() > 0,
{
    let n = nfc(input);
    sanitize_normalized(n.as_str())
}


// ---------------------------------------------------------------------------
// The `[tmdb-{id}]` tag

/// `[tmdb-`
pub open spec fn tag_open() -> Seq<char> {
    seq!['[', 't', 'm', 'd', 'b', '-']
}

/// Number of decimal digits (`\d`) immediately before position `e` of `t`.
pub open spec fn digit_run_back(t: Seq<char>, e: int) -> nat
    decreases e,
{
    if 0 < e <= t.len() && is_dec(t[e - 1]) {
        1 + digit_run_back(t, e - 1)
    } else {
        0
    }
}

/// Where the tag begins in `t`, when `t` ends with one.
pub open spec fn tag_start(t: Seq<char>) -> int {
    t.len() - 1 - digit_run_back(t, t.len() - 1) - 6
}

/// `t` ends with `[tmdb-<digits>]`.
pub open spec fn has_tag(t: Seq<char>) -> bool {
    &&& t.len() >= 1
    &&& t.last() == ']'
    &&& digit_run_back(t, t.len() - 1) >= 1
    &&& tag_start(t) >= 0
    &&& t.subrange(tag_start(t), tag_start(t) + 6) == tag_open()
}

/// The digits inside the tag.
pub open spec fn tag_digits(t: Seq<char>) -> Seq<char> {
    t.subrange(t.len() - 1 - digit_run_back(t, t.len() - 1), t.len() - 1)
}

/// The title part in front of the tag, trimmed.
pub open spec fn tag_title(t: Seq<char>) -> Seq<char> {
    trim(t.subrange(0, tag_start(t)))
}

/// TMDB id carried by a folder name: the trimmed name ends with
/// `[tmdb-<digits>]`, and its digits read as an `i64` (ASCII digits whose
/// value fits).
pub open spec fn parse_tmdb_id_spec(folder: Seq<char>) -> Option<i64> {
    let t = trim(folder);
    if has_tag(t) {
        digits_i64(tag_digits(t))
    } else {
        None
    }
}

/// The catalogued convention: `<non-empty title> [tmdb-<digits>]`.
pub open spec fn is_catalogued_spec(folder: Seq<char>) -> bool {
    let t = trim(folder);
    has_tag(t) && tag_title(t).len() > 0
}

/// The canonical folder name for a title and TMDB id.
pub open spec fn folder_name_spec(title: Seq<char>, tmdb_id: int) -> Seq<char> {
    sanitize_spec(title) + seq![' '] + tag_open() + int_str(tmdb_id) + seq![']']
}

proof fn lemma_run_back_digits(t: Seq<char>, e: int)
    requires
        0 <= e <= t.len(),
    ensures
        digit_run_back(t, e) <= e,
        forall|k: int| e - digit_run_back(t, e) <= k < e ==> is_dec(#[trigger] t[k]),
        e - digit_run_back(t, e) > 0 ==> !is_dec(t[e - digit_run_back(t, e) - 1]),
    decreases e,
{
    if e > 0 && is_dec(t[e - 1]) {
        lemma_run_back_digits(t, e - 1);
    }
}

/// Start index of the tag inside `v[a..b]` (absolute), if that slice ends
/// with one.
fn find_tag(v: &Vec<char>, a: usize, b: usize) -> (r: Option<usize>)
    requires
        a <= b <= v.len(),
    ensures
        r is Some <==> has_tag(v@.subrange(a as int, b as int)),
        r matches Some(s) ==> s == a + tag_start(v@.subrange(a as int, b as int)),
{
    let ghost t = v@.subrange(a as int, b as int);
    if b == a || v[b - 1] != ']' {
        return None;
    }
    let e = b - 1;
    let mut j: usize = e;
    while j > a && is_decimal(v[j - 1])
        invariant
            a <= j <= e,
            e + 1 == b,
            b <= v.len(),
            t == v@.subrange(a as int, b as int),
            digit_run_back(t, e - a) == (e - j) + digit_run_back(t, j - a),
        decreases j,
    {
        proof {
            assert(t[j - a - 1] == v@[j - 1]);
        }
        j = j - 1;
    }
    proof {
        if j > a {
            assert(t[j - a - 1] == v@[j - 1]);
        }
        assert(digit_run_back(t, j - a) == 0);
    }
    if j == e || j - a < 6 {
        return None;
    }
    let s = j - 6;
    let ok = v[s] == '[' && v[s + 1] == 't' && v[s + 2] == 'm' && v[s + 3] == 'd' && v[s + 4]
        == 'b' && v[s + 5] == '-';
    proof {
        let w = t.subrange(tag_start(t), tag_start(t) + 6);
        assert(tag_start(t) == s - a);
        assert forall|k: int| 0 <= k < 6 implies w[k] == v@[s + k] by {}
        if ok {
            assert(w =~= tag_open());
        } else {
            assert(w != tag_open()) by {
                if w == tag_open() {
                    assert(w[0] == '[' && w[1] == 't' && w[2] == 'm' && w[3] == 'd' && w[4]
                        == 'b' && w[5] == '-');
                }
            }
        }
    }
    if ok {
        Some(s)
    } else {
        None
    }
}

/// Extract the TMDB id from a folder name, if it matches the convention.
/// Whitespace at the end is tolerated.
pub fn parse_tmdb_id(folder: &str) -> (r: Option<i64>)
    ensures
        r == parse_tmdb_id_spec(folder@),
{
    let v = chars_of(folder);
    let (a, b) = trim_bounds(&v);
    let ghost t = v@.subrange(a as int, b as int);
    match find_tag(&v, a, b) {
        None => None,
        Some(s) => {
            let r = parse_digits_i64(&v, s + 6, b - 1);
            proof {
                lemma_run_back_digits(t, t.len() - 1);
                assert(v@.subrange(s + 6, b - 1) =~= tag_digits(t));
            }
            r
        },
    }
}

/// Returns true if the folder name matches the catalogued convention
/// (`<non-empty title> [tmdb-<id>]`).
pub fn is_catalogued_folder(folder: &str) -> (r: bool)
    ensures
        r == is_catalogued_spec(folder@),
{
    let v = chars_of(folder);
    let (a, b) = trim_bounds(&v);
    let ghost t = v@.subrange(a as int, b as int);
    match find_tag(&v, a, b) {
        None => false,
        Some(s) => {
            let p = slice_vec(&v, a, s);
            let (pa, pb) = trim_bounds(&p);
            proof {
                assert(p@ =~= t.subrange(0, tag_start(t)));
            }
            pb > pa
        },
    }
}

/// The title part of a catalogued folder name (the name with its
/// `[tmdb-{id}]` tag removed); `None` when the name does not follow the
/// convention.
pub fn strip_tmdb_tag(folder: &str) -> (r: Option<String>)
    ensures
        r is Some <==> is_catalogued_spec(folder@),
        r matches Some(s) ==> s@ == tag_title(trim(folder@)),
{
    let v = chars_of(folder);
    let (a, b) = trim_bounds(&v);
    let ghost t = v@.subrange(a as int, b as int);
    match find_tag(&v, a, b) {
        None => None,
        Some(s) => {
            let p = slice_vec(&v, a, s);
            let (pa, pb) = trim_bounds(&p);
            proof {
                assert(p@ =~= t.subrange(0, tag_start(t)));
            }
            if pb > pa {
                let w = slice_vec(&p, pa, pb);
                Some(string_of(&w))
            } else {
                None
            }
        },
    }
}

/// Build the canonical folder name for a media entry
/// (`"<sanitized title> [tmdb-<id>]"`).
pub fn folder_name(title: &str, tmdb_id: i64) -> (r: String)
    ensures
        r@ == folder_name_spec(title@, tmdb_id as int),
{
    let safe = sanitize_segment(title);
    let mut v = chars_of(safe.as_str());
    v.push(' ');
    v.push('[');
    v.push('t');
    v.push('m');
    v.push('d');
    v.push('b');
    v.push('-');
    let d = fmt_i64(tmdb_id);
    extend_chars(&mut v, &d);
    v.push(']');
    let r = string_of(&v);
    assert(r@ =~= folder_name_spec(title@, tmdb_id as int));
    r
}


proof fn lemma_collapse_edges(s: Seq<char>)
    ensures
        collapse(s).len() > 0 ==> !is_ws(collapse(s)[0]) && !is_ws(collapse(s).last()),
    decreases s.len(),
{
    if s.len() > 0 {
        lemma_collapse_edges(s.drop_last());
    }
}

proof fn lemma_trim_trailing_edges(s: Seq<char>)
    ensures
        trim_trailing_spec(s).len() <= s.len(),
        trim_trailing_spec(s) == s.subrange(0, trim_trailing_spec(s).len() as int),
        trim_trailing_spec(s).len() > 0 ==> !is_dot_or_ws(trim_trailing_spec(s).last()),
    decreases s.len(),
{
    if s.len() > 0 && is_dot_or_ws(s.last()) {
        lemma_trim_trailing_edges(s.drop_last());
        let r = trim_trailing_spec(s.drop_last());
        assert(s.drop_last().subrange(0, r.len() as int) =~= s.subrange(0, r.len() as int));
    } else {
        assert(s.subrange(0, s.len() as int) =~= s);
    }
}

/// A sanitized segment is non-empty and neither starts nor ends with
/// whitespace.
pub proof fn lemma_sanitized_edges(n: Seq<char>)
    ensures
        sanitized(n).len() > 0,
        !is_ws(sanitized(n)[0]),
        !is_ws(sanitized(n).last()),
{
    let c = collapse(cleaned(n));
    lemma_collapse_edges(cleaned(n));
    lemma_trim_trailing_edges(c);
    let t = trim_trailing_spec(c);
    if t.len() > 0 {
        assert(t[0] == c[0]);
    }
}

proof fn lemma_run_back_exact(t: Seq<char>, e: int, k: int)
    requires
        0 <= k <= e <= t.len(),
        forall|i: int| e - k <= i < e ==> is_dec(#[trigger] t[i]),
        e - k > 0 ==> !is_dec(t[e - k - 1]),
    ensures
        digit_run_back(t, e) == k,
    decreases k,
{
    if k > 0 {
        lemma_run_back_exact(t, e - 1, k - 1);
    }
}

/// Naming a folder and reading it back agree: for a non-negative id,
/// the folder name built from any title is catalogued, carries exactly
/// that id, and its title part is the sanitized title.
pub proof fn law_folder_name_roundtrip(title: Seq<char>, tmdb_id: i64)
    requires
        tmdb_id >= 0,
    ensures
        parse_tmdb_id_spec(folder_name_spec(title, tmdb_id as int)) == Some(tmdb_id),
        is_catalogued_spec(folder_name_spec(title, tmdb_id as int)),
        tag_title(trim(folder_name_spec(title, tmdb_id as int))) == sanitize_spec(title),
{
    let s = sanitize_spec(title);
    lemma_sanitized_edges(nfc_of(title));
    let d = digits_of(tmdb_id as nat);
    lemma_digits_of_shape(tmdb_id as nat);
    let f = folder_name_spec(title, tmdb_id as int);
    assert(int_str(tmdb_id as int) == d);
    let n = f.len();
    assert(n == s.len() + 7 + d.len() + 1);
    assert(f[0] == s[0]);
    assert(trim_start(f) == f);
    assert(f.last() == ']');
    assert(trim_end(f) == f);
    assert(trim(f) == f);
    assert forall|i: int| n - 1 - d.len() <= i < n - 1 implies is_dec(#[trigger] f[i]) by {
        assert(f[i] == d[i - (n - 1 - d.len())]);
        assert(is_digit(d[i - (n - 1 - d.len())]));
    }
    assert(f[n - 1 - d.len() - 1] == '-');
    lemma_run_back_exact(f, n - 1, d.len() as int);
    assert(tag_start(f) == s.len() + 1);
    assert(f.subrange(tag_start(f), tag_start(f) + 6) =~= tag_open());
    assert(has_tag(f));
    assert(tag_digits(f) =~= d);
    let p = f.subrange(0, tag_start(f));
    assert(p =~= s.push(' '));
    assert(p[0] == s[0]);
    assert(trim_start(p) == p);
    assert(p.drop_last() =~= s);
    assert(trim_end(p) == trim_end(s));
    assert(trim_end(s) == s);
    assert(tag_title(f) == s);
}


proof fn lemma_collapse_keeps_out(s: Seq<char>, c: char)
    requires
        c != ' ',
        forall|k: int| 0 <= k < s.len() ==> s[k] != c,
    ensures
        forall|k: int| 0 <= k < collapse(s).len() ==> collapse(s)[k] != c,
    decreases s.len(),
{
    if s.len() > 0 {
        lemma_collapse_keeps_out(s.drop_last(), c);
        let p = collapse(s.drop_last());
        let l = s.last();
        assert(l == s[s.len() - 1]);
        if !is_ws(l) && s.len() >= 2 && is_ws(s[s.len() - 2]) && p.len() > 0 {
            assert forall|k: int| 0 <= k < p.push(' ').push(l).len() implies p.push(' ').push(l)[k] != c by {
                if k < p.len() {
                    assert(p.push(' ').push(l)[k] == p[k]);
                }
            }
        } else if !is_ws(l) {
            assert forall|k: int| 0 <= k < p.push(l).len() implies p.push(l)[k] != c by {
                if k < p.len() {
                    assert(p.push(l)[k] == p[k]);
                }
            }
        }
    }
}

/// A sanitized segment holds no path separator: naming never nests a
/// folder.
pub proof fn lemma_sanitize_no_slash(input: Seq<char>)
    ensures
        forall|k: int| 0 <= k < sanitize_spec(input).len() ==> sanitize_spec(input)[k] != '/',
{
    let n = nfc_of(input);
    let cl = cleaned(n);
    assert forall|k: int| 0 <= k < cl.len() implies cl[k] != '/' by {
        assert(cl[k] == clean_char(n[k]));
    }
    lemma_collapse_keeps_out(cl, '/');
    let c = collapse(cl);
    lemma_trim_trailing_edges(c);
    let t = trim_trailing_spec(c);
    assert forall|k: int| 0 <= k < t.len() implies t[k] != '/' by {
        assert(t[k] == c.subrange(0, t.len() as int)[k]);
    }
    if t.len() == 0 {
        assert(sanitized(n) =~= seq!['_']);
    }
}

/// Every character `collapse` keeps satisfies `p`, when `p` holds of the
/// space and of each non-whitespace character of the input.
proof fn lemma_collapse_chars(s: Seq<char>, p: spec_fn(char) -> bool)
    requires
        p(' '),
        forall|k: int| 0 <= k < s.len() && !is_ws(#[trigger] s[k]) ==> p(s[k]),
    ensures
        forall|k: int| 0 <= k < collapse(s).len() ==> p(#[trigger] collapse(s)[k]),
    decreases s.len(),
{
    if s.len() > 0 {
        let d = s.drop_last();
        assert forall|k: int| 0 <= k < d.len() && !is_ws(#[trigger] d[k]) implies p(d[k]) by {
            assert(d[k] == s[k]);
        }
        lemma_collapse_chars(d, p);
        let q = collapse(d);
        let l = s.last();
        assert(l == s[s.len() - 1]);
        if !is_ws(l) && s.len() >= 2 && is_ws(s[s.len() - 2]) && q.len() > 0 {
            let r = q.push(' ').push(l);
            assert forall|k: int| 0 <= k < r.len() implies p(#[trigger] r[k]) by {
                if k < q.len() {
                    assert(r[k] == q[k]);
                }
            }
        } else if !is_ws(l) {
            let r = q.push(l);
            assert forall|k: int| 0 <= k < r.len() implies p(#[trigger] r[k]) by {
                if k < q.len() {
                    assert(r[k] == q[k]);
                }
            }
        }
    }
}

/// In a collapsed sequence a whitespace character is always followed by a
/// non-whitespace one.
proof fn lemma_collapse_single_spaces(s: Seq<char>)
    ensures
        forall|k: int|
            0 <= k < collapse(s).len() && is_ws(#[trigger] collapse(s)[k]) ==> k + 1 < collapse(s).len()
                && !is_ws(collapse(s)[k + 1]),
    decreases s.len(),
{
    if s.len() > 0 {
        let d = s.drop_last();
        lemma_collapse_single_spaces(d);
        lemma_collapse_edges(d);
        lemma_collapse_edges(s);
        let q = collapse(d);
        let l = s.last();
        let r = collapse(s);
        if !is_ws(l) && s.len() >= 2 && is_ws(s[s.len() - 2]) && q.len() > 0 {
            assert(r == q.push(' ').push(l));
            assert forall|k: int| 0 <= k < r.len() && is_ws(#[trigger] r[k]) implies k + 1 < r.len()
                && !is_ws(r[k + 1]) by {
                if k + 1 < q.len() {
                    assert(r[k] == q[k]);
                    assert(r[k + 1] == q[k + 1]);
                } else if k + 1 == q.len() {
                    assert(r[k] == q.last());
                }
            }
        } else if !is_ws(l) {
            assert(r == q.push(l));
            assert forall|k: int| 0 <= k < r.len() && is_ws(#[trigger] r[k]) implies k + 1 < r.len()
                && !is_ws(r[k + 1]) by {
                if k + 1 < q.len() {
                    assert(r[k] == q[k]);
                    assert(r[k + 1] == q[k + 1]);
                } else if k + 1 == q.len() {
                    assert(r[k] == q.last());
                }
            }
        }
    }
}

/// The shape of a sanitized sequence.
proof fn lemma_sanitized_shape(n: Seq<char>)
    ensures
        sanitized(n).len() > 0,
        forall|k: int|
            0 <= k < sanitized(n).len() ==> !is_ctrl(#[trigger] sanitized(n)[k])
                && !is_illegal(sanitized(n)[k]),
        forall|k: int|
            0 <= k < sanitized(n).len() && is_ws(#[trigger] sanitized(n)[k]) ==> sanitized(n)[k] == ' '
                && 0 < k && k + 1 < sanitized(n).len() && !is_ws(sanitized(n)[k + 1]),
        !is_dot_or_ws(sanitized(n).last()),
{
    let cl = cleaned(n);
    let ok = |c: char| (c == ' ' || !is_ws(c)) && !is_ctrl(c) && !is_illegal(c);
    assert forall|k: int| 0 <= k < cl.len() && !is_ws(#[trigger] cl[k]) implies ok(cl[k]) by {
        assert(cl[k] == clean_char(n[k]));
    }
    lemma_collapse_chars(cl, ok);
    lemma_collapse_single_spaces(cl);
    lemma_collapse_edges(cl);
    let c = collapse(cl);
    lemma_trim_trailing_edges(c);
    let t = trim_trailing_spec(c);
    let r = sanitized(n);
    if t.len() == 0 {
        assert(r =~= seq!['_']);
        assert(r[0] == '_');
    } else {
        assert(r == t);
        assert forall|k: int| 0 <= k < t.len() implies #[trigger] t[k] == c[k] by {
            assert(t[k] == c.subrange(0, t.len() as int)[k]);
        }
        assert forall|k: int| 0 <= k < r.len() implies !is_ctrl(#[trigger] r[k]) && !is_illegal(r[k]) by {
            assert(ok(c[k]));
        }
        assert forall|k: int| 0 <= k < r.len() && is_ws(#[trigger] r[k]) implies r[k] == ' ' && 0 < k && k + 1
            < r.len() && !is_ws(r[k + 1]) by {
            assert(ok(c[k]));
            assert(r[0] == c[0]);
            if k + 1 == r.len() {
                assert(is_dot_or_ws(r.last()));
            } else {
                assert(r[k + 1] == c[k + 1]);
            }
        }
    }
}

/// What sanitizing promises of every input: the segment is never empty,
/// holds no control character and none of `< > : " / \ | ? *`, has no
/// whitespace but single spaces between other characters (none at the
/// start, no run of two), and does not end in a dot or whitespace.
pub proof fn law_sanitized_shape(input: Seq<char>)
    ensures
        sanitize_spec(input).len() > 0,
        forall|k: int|
            0 <= k < sanitize_spec(input).len() ==> {
                let c = #[trigger] sanitize_spec(input)[k];
                &&& c != '<' && c != '>' && c != ':' && c != '"' && c != '/'
                &&& c != '\\' && c != '|' && c != '?' && c != '*'
                &&& c > '\u{1F}' && !('\u{7F}' <= c && c <= '\u{9F}')
            },
        forall|k: int|
            0 <= k < sanitize_spec(input).len() ==> !is_ctrl(#[trigger] sanitize_spec(input)[k])
                && !is_illegal(sanitize_spec(input)[k]),
        forall|k: int|
            0 <= k < sanitize_spec(input).len() && is_ws(#[trigger] sanitize_spec(input)[k]) ==> sanitize_spec(
                input,
            )[k] == ' ' && 0 < k && k + 1 < sanitize_spec(input).len() && !is_ws(sanitize_spec(input)[k + 1]),
        !is_dot_or_ws(sanitize_spec(input).last()),
{
    lemma_sanitized_shape(nfc_of(input));
}

/// A folder name built from any title holds none of the characters that
/// Windows forbids in names (`< > : " / \\ | ? *`) and no control
/// character, so it can be created on every drive.
pub proof fn law_folder_name_portable(title: Seq<char>, tmdb_id: i64)
    ensures
        forall|k: int|
            0 <= k < folder_name_spec(title, tmdb_id as int).len() ==> {
                let c = #[trigger] folder_name_spec(title, tmdb_id as int)[k];
                &&& c != '<' && c != '>' && c != ':' && c != '"' && c != '/'
                &&& c != '\\' && c != '|' && c != '?' && c != '*'
                &&& c > '\u{1F}' && !('\u{7F}' <= c && c <= '\u{9F}')
            },
{
    let s = sanitize_spec(title);
    law_sanitized_shape(title);
    let d = int_str(tmdb_id as int);
    let f = folder_name_spec(title, tmdb_id as int);
    assert(f == s + seq![' '] + tag_open() + d + seq![']']);
    assert forall|k: int| 0 <= k < d.len() implies #[trigger] d[k] == '-' || is_digit(d[k]) by {
        if tmdb_id < 0 {
            let m = (-(tmdb_id as int)) as nat;
            lemma_digits_of_shape(m);
            assert(d =~= seq!['-'] + digits_of(m));
            if k > 0 {
                assert(d[k] == digits_of(m)[k - 1]);
            }
        } else {
            lemma_digits_of_shape(tmdb_id as nat);
        }
    }
    assert forall|k: int| 0 <= k < f.len() implies {
        let c = #[trigger] f[k];
        &&& c != '<' && c != '>' && c != ':' && c != '"' && c != '/'
        &&& c != '\\' && c != '|' && c != '?' && c != '*'
        &&& c > '\u{1F}' && !('\u{7F}' <= c && c <= '\u{9F}')
    } by {
        if k < s.len() {
            assert(f[k] == s[k]);
        } else if k == s.len() {
            assert(f[k] == ' ');
        } else if k < s.len() + 7 {
            assert(f[k] == tag_open()[k - s.len() - 1]);
        } else if k < s.len() + 7 + d.len() {
            assert(f[k] == d[k - s.len() - 7]);
        } else {
            assert(f[k] == ']');
        }
    }
}

/// No whitespace at either end, and every whitespace character a single
/// space followed by a non-whitespace one.
spec fn single_spaced(s: Seq<char>) -> bool {
    &&& s.len() > 0 ==> !is_ws(s[0]) && !is_ws(s.last())
    &&& forall|k: int|
        0 <= k < s.len() && is_ws(#[trigger] s[k]) ==> s[k] == ' ' && k + 1 < s.len() && !is_ws(s[k + 1])
}

/// Collapsing leaves a single-spaced sequence as it is.
proof fn lemma_collapse_fixed(s: Seq<char>)
    requires
        single_spaced(s),
    ensures
        collapse(s) == s,
    decreases s.len(),
{
    if s.len() >= 2 {
        let n = s.len() as int;
        if is_ws(s[n - 2]) {
            let t = s.subrange(0, n - 2);
            assert(n - 2 > 0);
            assert(!is_ws(s[n - 3]));
            assert(single_spaced(t)) by {
                assert(t[0] == s[0]);
                assert(t.last() == s[n - 3]);
                assert forall|k: int| 0 <= k < t.len() && is_ws(#[trigger] t[k]) implies t[k] == ' ' && k + 1
                    < t.len() && !is_ws(t[k + 1]) by {
                    assert(t[k] == s[k]);
                    assert(s[k + 1] == t[k + 1] || k + 1 == t.len());
                }
            }
            lemma_collapse_fixed(t);
            assert(s.drop_last() == t.push(' '));
            assert(t.push(' ').drop_last() == t);
            assert(collapse(t.push(' ')) == collapse(t));
            assert(s == t.push(' ').push(s.last()));
        } else {
            let d = s.drop_last();
            assert(single_spaced(d)) by {
                assert(d.last() == s[n - 2]);
                assert forall|k: int| 0 <= k < d.len() && is_ws(#[trigger] d[k]) implies d[k] == ' ' && k + 1
                    < d.len() && !is_ws(d[k + 1]) by {
                    assert(d[k] == s[k]);
                    if k + 1 < d.len() {
                        assert(d[k + 1] == s[k + 1]);
                    }
                }
            }
            lemma_collapse_fixed(d);
            assert(s == d.push(s.last()));
        }
    } else if s.len() == 1 {
        assert(s.drop_last() =~= Seq::<char>::empty());
        assert(collapse(s.drop_last()) == Seq::<char>::empty());
        assert(s =~= seq![].push(s.last()));
    }
}

/// A name that is already well formed is left exactly as it is: when it
/// is non-empty, holds no control character and none of
/// `< > : " / \\ | ? *`, has whitespace only as single plain spaces
/// between other characters, and does not end in a dot, sanitizing it
/// (after composition) gives it back unchanged.
pub proof fn law_sanitized_keeps_clean_names(n: Seq<char>)
    requires
        n.len() > 0,
        forall|k: int|
            0 <= k < n.len() ==> {
                let c = #[trigger] n[k];
                &&& c != '<' && c != '>' && c != ':' && c != '"' && c != '/'
                &&& c != '\\' && c != '|' && c != '?' && c != '*'
                &&& c > '\u{1F}' && !('\u{7F}' <= c && c <= '\u{9F}')
                &&& is_ws(c) ==> c == ' ' && 0 < k && k + 1 < n.len() && !is_ws(n[k + 1])
            },
        n.last() != '.',
    ensures
        sanitized(n) == n,
{
    assert(cleaned(n) =~= n) by {
        assert forall|k: int| 0 <= k < n.len() implies #[trigger] cleaned(n)[k] == n[k] by {
            let c = n[k];
            assert(!is_ctrl(c) && !is_illegal(c));
        }
    }
    assert(!is_ws(n[0]));
    if is_ws(n.last()) {
        assert(is_ws(n[n.len() - 1]));
    }
    lemma_collapse_fixed(n);
    assert(trim_trailing_spec(n) == n);
}

/// Sanitizing an already sanitized sequence changes nothing.
pub proof fn law_sanitized_idempotent(n: Seq<char>)
    ensures
        sanitized(sanitized(n)) == sanitized(n),
{
    let r = sanitized(n);
    lemma_sanitized_shape(n);
    assert(cleaned(r) =~= r) by {
        assert forall|k: int| 0 <= k < r.len() implies #[trigger] cleaned(r)[k] == r[k] by {
            assert(!is_ctrl(r[k]) && !is_illegal(r[k]));
        }
    }
    lemma_collapse_fixed(r);
    assert(trim_trailing_spec(r) == r);
}

/// Sanitizing the result of sanitizing gives it back whenever that result
/// is its own canonical composition (NFC leaves it unchanged).
pub proof fn law_sanitize_twice(input: Seq<char>)
    ensures
        nfc_of(sanitize_spec(input)) == sanitize_spec(input) ==> sanitize_spec(sanitize_spec(input))
            == sanitize_spec(input),
{
    law_sanitized_idempotent(nfc_of(input));
}

/// A folder name holds no path separator.
pub proof fn lemma_folder_name_no_slash(title: Seq<char>, tmdb_id: i64)
    requires
        tmdb_id >= 0,
    ensures
        forall|k: int|
            0 <= k < folder_name_spec(title, tmdb_id as int).len() ==> folder_name_spec(title, tmdb_id as int)[k]
                != '/',
        folder_name_spec(title, tmdb_id as int).len() > 0,
        folder_name_spec(title, tmdb_id as int).last() == ']',
{
    let s = sanitize_spec(title);
    lemma_sanitize_no_slash(title);
    lemma_digits_of_shape(tmdb_id as nat);
    let d = digits_of(tmdb_id as nat);
    let f = folder_name_spec(title, tmdb_id as int);
    assert(int_str(tmdb_id as int) == d);
    assert forall|k: int| 0 <= k < f.len() implies f[k] != '/' by {
        if k < s.len() {
            assert(f[k] == s[k]);
        } else if s.len() + 7 <= k < s.len() + 7 + d.len() {
            assert(f[k] == d[k - s.len() - 7]);
            assert(is_digit(d[k - s.len() - 7]));
        }
    }
}

} // verus!
