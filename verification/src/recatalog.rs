//! Pure helpers for the "Re-Catalog" flow: episode tags in file names and
//! season folders of an already-catalogued series.
//!
//! The episode tag is `S<1-3 digits>E<1-3 digits>`, letters in any case
//! (the `S` also as `ſ`, which folds to it) and digits of any script, found
//! at its leftmost occurrence; at most three episode digits are read. Its
//! numbers are then read as ASCII decimals.

use vstd::prelude::*;
use vstd::multiset::Multiset;

use crate::classify::{is_video_chars, is_video_path};
use crate::numfmt::{
    all_digits, digits_i64, is_dec, is_decimal, lemma_small_digits_val, parse_digits_i64,
    parse_i64, parse_i64_spec,
};
use crate::order::{
    int_key_is, lemma_filter_map_values, lemma_map_multiset, sort_by_int_key, sort_by_path_key, sorted_by_int_key,
    sorted_by_key, IntKeyed,
};
use crate::path::{file_name, file_name_spec};
use crate::sidecars::string_views;
use crate::text::{chars_of, slice_vec, string_of, trim, trim_bounds};

verus! {

pub open spec fn is_s(c: char) -> bool {
    c == 'S' || c == 's' || c == '\u{17F}'
}

pub open spec fn is_e(c: char) -> bool {
    c == 'E' || c == 'e'
}

/// Number of decimal digits (`\d`) starting at position `i` of `s`.
pub open spec fn digit_run(s: Seq<char>, i: int) -> nat
    decreases s.len() - i,
{
    if 0 <= i < s.len() && is_dec(s[i]) {
        1 + digit_run(s, i + 1)
    } else {
        0
    }
}

/// An episode tag starts at position `p` of `s`.
pub open spec fn tag_at(s: Seq<char>, p: int) -> bool {
    let r1 = digit_run(s, p + 1);
    &&& 0 <= p < s.len()
    &&& is_s(s[p])
    &&& 1 <= r1 <= 3
    &&& p + 1 + r1 < s.len()
    &&& is_e(s[p + 1 + r1])
    &&& digit_run(s, p + 2 + r1) >= 1
}

/// Leftmost tag position at or after `p`.
pub open spec fn first_tag_from(s: Seq<char>, p: int) -> Option<int>
    decreases s.len() - p,
{
    if p < 0 || p >= s.len() {
        None
    } else if tag_at(s, p) {
        Some(p)
    } else {
        first_tag_from(s, p + 1)
    }
}

pub open spec fn first_tag(s: Seq<char>) -> Option<int> {
    first_tag_from(s, 0)
}

/// Season digits of the tag at `p`.
pub open spec fn season_digits(s: Seq<char>, p: int) -> Seq<char> {
    s.subrange(p + 1, p + 1 + digit_run(s, p + 1))
}

/// Number of episode digits read for the tag at `p` (at most three).
pub open spec fn episode_len(s: Seq<char>, p: int) -> int {
    let r2 = digit_run(s, p + 2 + digit_run(s, p + 1));
    if r2 > 3 {
        3
    } else {
        r2 as int
    }
}

pub open spec fn episode_start(s: Seq<char>, p: int) -> int {
    p + 2 + digit_run(s, p + 1)
}

/// Episode digits of the tag at `p`.
pub open spec fn episode_digits(s: Seq<char>, p: int) -> Seq<char> {
    s.subrange(episode_start(s, p), episode_start(s, p) + episode_len(s, p))
}

/// End (exclusive) of the tag at `p`.
pub open spec fn tag_end(s: Seq<char>, p: int) -> int {
    episode_start(s, p) + episode_len(s, p)
}

/// The season and episode of the leftmost tag, each read as an `i64`;
/// nothing when there is no tag or either number does not read.
pub open spec fn parse_season_episode_spec(s: Seq<char>) -> Option<(i64, i64)> {
    match first_tag(s) {
        Some(p) => match (digits_i64(season_digits(s, p)), digits_i64(episode_digits(s, p))) {
            (Some(a), Some(b)) => Some((a, b)),
            _ => None,
        },
        None => None,
    }
}

pub open spec fn is_tag_sep(c: char) -> bool {
    c == '.' || c == ' ' || c == '-' || c == '_'
}

/// `s` without its leading separators (`.`, space, `-`, `_`).
pub open spec fn trim_seps(s: Seq<char>) -> Seq<char>
    decreases s.len(),
{
    if s.len() > 0 && is_tag_sep(s[0]) {
        trim_seps(s.drop_first())
    } else {
        s
    }
}

pub open spec fn strip_episode_tag_spec(s: Seq<char>) -> Seq<char> {
    match first_tag(s) {
        Some(p) => trim_seps(s.subrange(tag_end(s, p), s.len() as int)),
        None => s,
    }
}

proof fn lemma_digit_run_bounds(s: Seq<char>, i: int)
    requires
        0 <= i,
    ensures
        i + digit_run(s, i) <= s.len() || digit_run(s, i) == 0,
        forall|k: int| i <= k < i + digit_run(s, i) ==> is_dec(#[trigger] s[k]),
        i + digit_run(s, i) < s.len() ==> !is_dec(s[i + digit_run(s, i)]),
    decreases s.len() - i,
{
    if 0 <= i < s.len() && is_dec(s[i]) {
        lemma_digit_run_bounds(s, i + 1);
    }
}

proof fn lemma_first_tag_from(s: Seq<char>, p: int)
    ensures
        first_tag_from(s, p) matches Some(q) ==> q >= p && tag_at(s, q),
    decreases s.len() - p,
{
    if 0 <= p < s.len() && !tag_at(s, p) {
        lemma_first_tag_from(s, p + 1);
    }
}

/// The season and episode read from a tag have at most three digits each.
pub proof fn lemma_parsed_numbers_small(s: Seq<char>)
    ensures
        parse_season_episode_spec(s) matches Some((a, b)) ==> 0 <= a < 1000 && 0 <= b < 1000,
{
    lemma_first_tag_from(s, 0);
    if let Some(p) = first_tag(s) {
        lemma_digit_run_bounds(s, p + 1);
        lemma_digit_run_bounds(s, episode_start(s, p));
        let sd = season_digits(s, p);
        let ed = episode_digits(s, p);
        if all_digits(sd) {
            lemma_small_digits_val(sd);
        }
        if all_digits(ed) {
            lemma_small_digits_val(ed);
        }
    }
}

/// `digit_run` computed.
fn digit_run_exec(s: &Vec<char>, i: usize) -> (r: usize)
    ensures
        r == digit_run(s@, i as int),
        i <= s.len() ==> i + r <= s.len(),
{
    let mut j: usize = i;
    if i >= s.len() {
        return 0;
    }
    while j < s.len() && is_decimal(s[j])
        invariant
            i <= j <= s.len(),
            digit_run(s@, i as int) == (j - i) + digit_run(s@, j as int),
        decreases s.len() - j,
    {
        j = j + 1;
    }
    j - i
}

fn is_s_exec(c: char) -> (r: bool)
    ensures
        r == is_s(c),
{
    c == 'S' || c == 's' || c == '\u{17F}'
}

fn tag_at_exec(s: &Vec<char>, p: usize) -> (r: bool)
    requires
        p < s.len(),
    ensures
        r == tag_at(s@, p as int),
{
    if !is_s_exec(s[p]) {
        return false;
    }
    let r1 = digit_run_exec(s, p + 1);
    if r1 < 1 || r1 > 3 {
        return false;
    }
    if p + 1 + r1 >= s.len() {
        return false;
    }
    let e = s[p + 1 + r1];
    if !(e == 'E' || e == 'e') {
        return false;
    }
    digit_run_exec(s, p + 2 + r1) >= 1
}

/// Leftmost episode tag of `s`.
fn find_episode_tag(s: &Vec<char>) -> (r: Option<usize>)
    ensures
        match r {
            Some(p) => first_tag(s@) == Some(p as int) && tag_at(s@, p as int),
            None => first_tag(s@) is None,
        },
{
    let mut p: usize = 0;
    while p < s.len()
        invariant
            p <= s.len(),
            first_tag(s@) == first_tag_from(s@, p as int),
        decreases s.len() - p,
    {
        if tag_at_exec(s, p) {
            return Some(p);
        }
        p = p + 1;
    }
    None
}

/// Parsed `(season, episode)` from a filename. Returns `None` when no
/// `SxxExx` token is present.
pub fn parse_season_episode(filename: &str) -> (r: Option<(i64, i64)>)
    ensures
        r == parse_season_episode_spec(filename@),
{
    let s = chars_of(filename);
    match find_episode_tag(&s) {
        None => None,
        Some(p) => {
            let r1 = digit_run_exec(&s, p + 1);
            let es = p + 2 + r1;
            let r2 = digit_run_exec(&s, es);
            let el = if r2 > 3 {
                3
            } else {
                r2
            };
            proof {
                lemma_digit_run_bounds(s@, p + 1);
                lemma_digit_run_bounds(s@, es as int);
                assert(s@.subrange(p + 1, p + 1 + r1) == season_digits(s@, p as int));
                assert(s@.subrange(es as int, es + el) == episode_digits(s@, p as int));
            }
            let season = parse_digits_i64(&s, p + 1, p + 1 + r1);
            let episode = parse_digits_i64(&s, es, es + el);
            match (season, episode) {
                (Some(a), Some(b)) => Some((a, b)),
                _ => None,
            }
        },
    }
}

/// Drop the leading `SxxExx` token (and the separators `.`, space, `-`,
/// `_` right after it) from a stem, leaving the custom title segment.
/// Without a token the stem is returned unchanged.
pub fn strip_episode_tag(stem: &str) -> (r: &str)
    ensures
        r@ == strip_episode_tag_spec(stem@),
{
    let s = chars_of(stem);
    match find_episode_tag(&s) {
        None => stem,
        Some(p) => {
            let r1 = digit_run_exec(&s, p + 1);
            let es = p + 2 + r1;
            let r2 = digit_run_exec(&s, es);
            let el = if r2 > 3 {
                3
            } else {
                r2
            };
            proof {
                lemma_digit_run_bounds(s@, es as int);
            }
            let mut k: usize = es + el;
            proof {
                assert(s@.subrange(k as int, s.len() as int) =~= s@.subrange(
                    tag_end(s@, p as int),
                    s.len() as int,
                ));
            }
            while k < s.len() && (s[k] == '.' || s[k] == ' ' || s[k] == '-' || s[k] == '_')
                invariant
                    tag_end(s@, p as int) <= k <= s.len(),
                    strip_episode_tag_spec(s@) == trim_seps(s@.subrange(k as int, s.len() as int)),
                    s@ == stem@,
                    first_tag(s@) == Some(p as int),
                decreases s.len() - k,
            {
                proof {
                    let t = s@.subrange(k as int, s.len() as int);
                    assert(t[0] == s@[k as int]);
                    assert(t.drop_first() =~= s@.subrange(k + 1, s.len() as int));
                }
                k = k + 1;
            }
            proof {
                let t = s@.subrange(k as int, s.len() as int);
                if t.len() > 0 {
                    assert(t[0] == s@[k as int]);
                }
            }
            stem.substring_char(k, s.len())
        },
    }
}


/// A subdirectory of a series folder, with the paths of the regular files
/// directly inside it.
pub struct SeasonDirListing {
    pub path: String,
    pub files: Vec<String>,
}

/// One discovered season under a series folder. `season_number` is
/// parsed from the season subfolder name (`<season_label> N`).
#[derive(Debug, Clone, PartialEq)]
pub struct DiscoveredSeason {
    pub season_number: i64,
    pub season_folder: String,
    pub files: Vec<String>,
}

impl IntKeyed for DiscoveredSeason {
    open spec fn ikey(&self) -> int {
        self.season_number as int
    }

    fn int_key(&self) -> (r: i64) {
        self.season_number
    }
}

/// The season number a folder named `name` stands for: the name is
/// `<label> ` followed by an integer, blanks around the integer allowed.
pub open spec fn season_number_of(name: Seq<char>, label: Seq<char>) -> Option<i64> {
    let prefix = label.push(' ');
    if prefix.is_prefix_of(name) {
        parse_i64_spec(trim(name.subrange(prefix.len() as int, name.len() as int)))
    } else {
        None
    }
}

/// The season number of a season directory, by its last path component.
pub open spec fn season_of_dir(path: Seq<char>, label: Seq<char>) -> Option<i64> {
    match file_name_spec(path) {
        Some(n) => season_number_of(n, label),
        None => None,
    }
}

/// The video paths among `files`, in their order.
pub open spec fn video_only(files: Seq<Seq<char>>) -> Seq<Seq<char>>
    decreases files.len(),
{
    if files.len() == 0 {
        seq![]
    } else if is_video_path(files.last()) {
        video_only(files.drop_last()).push(files.last())
    } else {
        video_only(files.drop_last())
    }
}

/// A season as values: number, folder, and its video files in any order.
pub type SeasonV = (int, Seq<char>, Multiset<Seq<char>>);

pub open spec fn season_view(s: DiscoveredSeason) -> SeasonV {
    (s.season_number as int, s.season_folder@, string_views(s.files@).to_multiset())
}

/// The seasons that `listings` hold, in listing order.
pub open spec fn seasons_of(listings: Seq<SeasonDirListing>, label: Seq<char>) -> Seq<SeasonV>
    decreases listings.len(),
{
    if listings.len() == 0 {
        seq![]
    } else {
        let l = listings.last();
        let rest = seasons_of(listings.drop_last(), label);
        match season_of_dir(l.path@, label) {
            Some(n) => rest.push((n as int, l.path@, video_only(string_views(l.files@)).to_multiset())),
            None => rest,
        }
    }
}

/// The season number a directory path stands for.
fn season_number_exec(path: &str, label: &str) -> (r: Option<i64>)
    ensures
        r == season_of_dir(path@, label@),
{
    let pv = chars_of(path);
    let name = match file_name(&pv) {
        Some(n) => n,
        None => return None,
    };
    let lv = chars_of(label);
    let ghost prefix = lv@.push(' ');
    if name.len() <= lv.len() {
        return None;
    }
    let plen = lv.len() + 1;
    let mut i: usize = 0;
    while i < lv.len()
        invariant
            i <= lv.len(),
            plen == lv.len() + 1,
            plen <= name.len(),
            prefix == lv@.push(' '),
            lv@ == label@,
            file_name_spec(path@) == Some(name@),
            forall|k: int| 0 <= k < i ==> name@[k] == lv@[k],
        decreases lv.len() - i,
    {
        if name[i] != lv[i] {
            proof {
                assert(name@[i as int] != prefix[i as int]);
                if prefix.is_prefix_of(name@) {
                    assert(name@.subrange(0, prefix.len() as int)[i as int] == name@[i as int]);
                    assert(name@.subrange(0, prefix.len() as int) == prefix);
                }
                assert(!prefix.is_prefix_of(name@));
                assert(lv@ == label@);
            }
            return None;
        }
        i = i + 1;
    }
    if name[lv.len()] != ' ' {
        proof {
            assert(name@[lv.len() as int] != prefix[lv.len() as int]);
            if prefix.is_prefix_of(name@) {
                assert(name@.subrange(0, prefix.len() as int)[lv.len() as int] == name@[lv.len() as int]);
            }
        }
        return None;
    }
    proof {
        assert(prefix =~= name@.subrange(0, plen as int));
        assert(prefix.is_prefix_of(name@));
    }
    let rest = slice_vec(&name, plen, name.len());
    let (a, b) = trim_bounds(&rest);
    parse_i64(&rest, a, b)
}

/// The video files among `files`, sorted.
fn season_videos(files: &Vec<String>) -> (r: Vec<String>)
    ensures
        sorted_by_key(r@),
        string_views(r@).to_multiset() == video_only(string_views(files@)).to_multiset(),
{
    let mut v: Vec<String> = Vec::new();
    let mut i: usize = 0;
    while i < files.len()
        invariant
            i <= files.len(),
            string_views(v@) == video_only(string_views(files@).take(i as int)),
        decreases files.len() - i,
    {
        let ghost t = string_views(files@).take(i + 1);
        proof {
            assert(t.drop_last() =~= string_views(files@).take(i as int));
            assert(t.last() == files@[i as int]@);
        }
        if is_video_chars(&chars_of(files[i].as_str())) {
            let ghost prev = v@;
            v.push(files[i].clone());
            proof {
                assert(string_views(v@) =~= string_views(prev).push(files@[i as int]@));
            }
        }
        i = i + 1;
    }
    proof {
        assert(string_views(files@).take(files.len() as int) =~= string_views(files@));
    }
    let ghost unsorted = v@;
    let r = sort_by_path_key(v);
    proof {
        lemma_map_multiset(r@, unsorted, |s: String| s@);
    }
    r
}

/// The views of discovered seasons, in order.
pub open spec fn season_views(s: Seq<DiscoveredSeason>) -> Seq<SeasonV> {
    s.map_values(|d: DiscoveredSeason| season_view(d))
}

/// The seasons of `w` numbered `n`, in order.
pub open spec fn seasons_numbered(w: Seq<SeasonV>, n: int) -> Seq<SeasonV> {
    w.filter(|t: SeasonV| t.0 == n)
}

/// One [`DiscoveredSeason`] per listed subdirectory whose name is
/// `<season_label_prefix> N`, sorted by `season_number` (stable, so
/// directories with the same number keep their listing order); each
/// season's files are its video files, sorted. Other directories are
/// ignored.
pub fn discover_seasons(
    listings: &Vec<SeasonDirListing>,
    season_label_prefix: &str,
) -> (r: Vec<DiscoveredSeason>)
    ensures
        sorted_by_int_key(r@),
        forall|i: int| 0 <= i < r.len() ==> sorted_by_key(#[trigger] r@[i].files@),
        r@.map_values(|s: DiscoveredSeason| season_view(s)).to_multiset() == seasons_of(
            listings@,
            season_label_prefix@,
        ).to_multiset(),
        forall|n: int| #[trigger] seasons_numbered(season_views(r@), n) == seasons_numbered(
            seasons_of(listings@, season_label_prefix@),
            n,
        ),
{
    let mut out: Vec<DiscoveredSeason> = Vec::new();
    let mut i: usize = 0;
    while i < listings.len()
        invariant
            i <= listings.len(),
            out@.map_values(|s: DiscoveredSeason| season_view(s)) == seasons_of(
                listings@.take(i as int),
                season_label_prefix@,
            ),
            forall|k: int| 0 <= k < out.len() ==> sorted_by_key(#[trigger] out@[k].files@),
        decreases listings.len() - i,
    {
        let l = &listings[i];
        proof {
            assert(listings@.take(i + 1).drop_last() =~= listings@.take(i as int));
            assert(listings@.take(i + 1).last() == listings@[i as int]);
        }
        match season_number_exec(l.path.as_str(), season_label_prefix) {
            Some(n) => {
                let files = season_videos(&l.files);
                let ghost prev = out@;
                let d = DiscoveredSeason { season_number: n, season_folder: l.path.clone(), files };
                out.push(d);
                proof {
                    assert(out@.map_values(|s: DiscoveredSeason| season_view(s)) =~= prev.map_values(
                        |s: DiscoveredSeason| season_view(s),
                    ).push(season_view(d)));
                }
            },
            None => {},
        }
        i = i + 1;
    }
    proof {
        assert(listings@.take(listings.len() as int) =~= listings@);
    }
    let ghost unsorted = out@;
    let r = sort_by_int_key(out);
    proof {
        lemma_map_multiset(r@, unsorted, |s: DiscoveredSeason| season_view(s));
        let rv = season_views(r@);
        assert forall|n: int| #[trigger] seasons_numbered(rv, n) == seasons_numbered(
            seasons_of(listings@, season_label_prefix@),
            n,
        ) by {
            let f = int_key_is::<DiscoveredSeason>(n);
            let m = |d: DiscoveredSeason| season_view(d);
            let g = |t: SeasonV| t.0 == n;
            lemma_filter_map_values(r@, f, m, g);
            lemma_filter_map_values(unsorted, f, m, g);
            assert(r@.filter(f) == unsorted.filter(f));
        }
        assert forall|i: int| 0 <= i < r.len() implies sorted_by_key(#[trigger] r@[i].files@) by {
            r@.to_multiset_ensures();
            unsorted.to_multiset_ensures();
            assert(r@.contains(r@[i]));
            assert(unsorted.to_multiset().count(r@[i]) > 0);
            let j = choose|j: int| 0 <= j < unsorted.len() && unsorted[j] == r@[i];
            assert(sorted_by_key(unsorted[j].files@));
        }
    }
    r
}

} // verus!
