//! Pure classification of a single directory into a discovery state.

use vstd::prelude::*;

use crate::classify::{is_video_chars, is_video_path, lower_vec};
use crate::naming::{is_catalogued_folder, is_catalogued_spec, parse_tmdb_id, parse_tmdb_id_spec};
use crate::numfmt::{all_digits, is_digit};
use crate::path::{file_name, file_name_spec, strip_prefix, strip_prefix_spec};
use crate::sidecars::views;
use crate::text::{chars_eq, chars_of, is_whitespace, is_ws, lower, string_of, trim, trim_bounds, slice_vec};

verus! {

/// What the scanner found inside a single folder.
#[derive(Debug, Clone, PartialEq, Eq)]
pub enum FolderClassification {
    /// Folder follows the `Title [tmdb-{id}]` convention and contains exactly
    /// one video file. Ready to be reconciled with the DB.
    Catalogued { tmdb_id: i64, video_filename: String },
    /// Folder doesn't follow the convention but does contain a single video.
    Uncatalogued { video_filename: String },
    /// Folder contains multiple video files.
    SkippedMultipleVideos { count: usize },
    /// Folder contains no video files; the scanner recurses further.
    NoVideos,
}

/// The video files among `names`, in order.
pub open spec fn videos_among(names: Seq<Seq<char>>) -> Seq<Seq<char>> {
    names.filter(|n: Seq<char>| is_video_path(n))
}

/// The classification of a folder named `basename` holding files `names`.
pub open spec fn classification_ok(
    r: FolderClassification,
    basename: Seq<char>,
    names: Seq<Seq<char>>,
) -> bool {
    let v = videos_among(names);
    if v.len() == 0 {
        r is NoVideos
    } else if v.len() == 1 {
        if is_catalogued_spec(basename) && parse_tmdb_id_spec(basename) is Some {
            r matches FolderClassification::Catalogued { tmdb_id, video_filename }
                && tmdb_id == parse_tmdb_id_spec(basename)->0 && video_filename@ == v[0]
        } else {
            r matches FolderClassification::Uncatalogued { video_filename } && video_filename@
                == v[0]
        }
    } else {
        r matches FolderClassification::SkippedMultipleVideos { count } && count == v.len()
    }
}

/// Classify a folder given its basename (for the `Title [tmdb-{id}]`
/// check) and the names of the files directly inside it.
pub fn classify_folder(folder_basename: &str, file_names: &[&str]) -> (r: FolderClassification)
    ensures
        classification_ok(r, folder_basename@, views(file_names@)),
{
    let ghost all = views(file_names@);
    let mut videos: Vec<String> = Vec::new();
    let mut i: usize = 0;
    while i < file_names.len()
        invariant
            i <= file_names.len(),
            all == views(file_names@),
            videos@.map_values(|s: String| s@) =~= videos_among(all.take(i as int)),
        decreases file_names.len() - i,
    {
        let n = chars_of(file_names[i]);
        proof {
            reveal_with_fuel(Seq::<_>::filter, 1);
            assert(all.take(i + 1).drop_last() =~= all.take(i as int));
            assert(all.take(i + 1).last() == file_names@[i as int]@);
        }
        if is_video_chars(&n) {
            let s = string_of(&n);
            let ghost before = videos@.map_values(|s: String| s@);
            videos.push(s);
            proof {
                assert(videos@.map_values(|s: String| s@) =~= before.push(s@));
            }
        }
        i = i + 1;
    }
    proof {
        assert(all.take(file_names.len() as int) =~= all);
    }
    let ghost vv = videos@.map_values(|s: String| s@);
    assert(vv.len() == videos.len());
    if videos.len() == 0 {
        FolderClassification::NoVideos
    } else if videos.len() == 1 {
        let video_filename = videos.pop().unwrap();
        assert(video_filename@ == vv[0]);
        if is_catalogued_folder(folder_basename) {
            if let Some(tmdb_id) = parse_tmdb_id(folder_basename) {
                return FolderClassification::Catalogued { tmdb_id, video_filename };
            }
        }
        FolderClassification::Uncatalogued { video_filename }
    } else {
        FolderClassification::SkippedMultipleVideos { count: videos.len() }
    }
}

/// The basename of `path` is `poster` (ASCII case-insensitive).
pub open spec fn is_poster_cache_spec(path: Seq<char>) -> bool {
    file_name_spec(path) matches Some(n) && lower(n) == "poster"@
}

/// Determines whether a directory is the "system" `poster/` cache and should
/// be skipped by the scanner. Comparison is case-insensitive on the basename.
pub fn is_poster_cache_dir(path: &str) -> (r: bool)
    ensures
        r == is_poster_cache_spec(path@),
{
    match file_name(&chars_of(path)) {
        Some(n) => chars_eq(&lower_vec(&n), &chars_of("poster")),
        None => false,
    }
}

/// Operating-system bookkeeping folders the scanner never descends into:
/// the Windows recycle bin and volume information, and the macOS trash,
/// Spotlight and fsevents stores (names compared ASCII case-insensitively).
pub open spec fn is_system_name(n: Seq<char>) -> bool {
    ||| lower(n) == "$recycle.bin"@
    ||| lower(n) == "system volume information"@
    ||| lower(n) == ".trash"@
    ||| lower(n) == ".trashes"@
    ||| lower(n) == ".spotlight-v100"@
    ||| lower(n) == ".fseventsd"@
}

pub open spec fn is_system_dir_spec(path: Seq<char>) -> bool {
    file_name_spec(path) matches Some(n) && is_system_name(n)
}

/// The folders the scanner treats as OS junk are exactly those whose
/// name, ASCII-lowercased, is `$recycle.bin`, `system volume information`
/// (Windows), `.trash`, `.trashes`, `.spotlight-v100` or `.fseventsd`
/// (macOS); a path with no file name (`/`, `..`) is none.
pub proof fn law_system_dirs(path: Seq<char>)
    ensures
        file_name_spec(path) matches Some(n) && lower(n) == "$recycle.bin"@ ==> is_system_dir_spec(path),
        file_name_spec(path) matches Some(n) && lower(n) == "system volume information"@ ==> is_system_dir_spec(path),
        file_name_spec(path) matches Some(n) && lower(n) == ".trash"@ ==> is_system_dir_spec(path),
        file_name_spec(path) matches Some(n) && lower(n) == ".trashes"@ ==> is_system_dir_spec(path),
        file_name_spec(path) matches Some(n) && lower(n) == ".spotlight-v100"@ ==> is_system_dir_spec(path),
        file_name_spec(path) matches Some(n) && lower(n) == ".fseventsd"@ ==> is_system_dir_spec(path),
        is_system_dir_spec(path) ==> (file_name_spec(path) matches Some(n) && (lower(n) == "$recycle.bin"@
            || lower(n) == "system volume information"@ || lower(n) == ".trash"@ || lower(n) == ".trashes"@
            || lower(n) == ".spotlight-v100"@ || lower(n) == ".fseventsd"@)),
{
}

/// The directory is OS junk that the scanner skips.
pub fn is_system_dir(path: &str) -> (r: bool)
    ensures
        r == is_system_dir_spec(path@),
{
    match file_name(&chars_of(path)) {
        Some(n) => {
            let l = lower_vec(&n);
            chars_eq(&l, &chars_of("$recycle.bin")) || chars_eq(
                &l,
                &chars_of("system volume information"),
            ) || chars_eq(&l, &chars_of(".trash")) || chars_eq(&l, &chars_of(".trashes"))
                || chars_eq(&l, &chars_of(".spotlight-v100")) || chars_eq(
                &l,
                &chars_of(".fseventsd"),
            )
        },
        None => false,
    }
}

/// `w` followed by at least one whitespace character and then only
/// ASCII digits (at least one).
pub open spec fn is_word_then_number(t: Seq<char>, w: Seq<char>) -> bool {
    t.len() > w.len() && t.subrange(0, w.len() as int) == w && exists|j: int|
        w.len() < j < t.len() && (forall|k: int| w.len() <= k < j ==> is_ws(#[trigger] t[k]))
            && all_digits(t.subrange(j, t.len() as int))
}

/// Season-shaped folder names: `Season N`, `Temporada N` (any case, any
/// whitespace between word and number) or `S<digits>` such as `S01`.
pub open spec fn is_season_name(n: Seq<char>) -> bool {
    let t = lower(trim(n));
    ||| is_word_then_number(t, "season"@)
    ||| is_word_then_number(t, "temporada"@)
    ||| (t.len() >= 2 && t[0] == 's' && all_digits(t.subrange(1, t.len() as int)))
}

/// `t[from..]` is all ASCII digits.
fn digits_from(t: &Vec<char>, from: usize) -> (r: bool)
    requires
        from <= t.len(),
    ensures
        r == all_digits(t@.subrange(from as int, t.len() as int)),
{
    let mut i: usize = from;
    while i < t.len()
        invariant
            from <= i <= t.len(),
            all_digits(t@.subrange(from as int, i as int)),
        decreases t.len() - i,
    {
        if !('0' <= t[i] && t[i] <= '9') {
            assert(!is_digit(t@.subrange(from as int, t.len() as int)[i - from]));
            return false;
        }
        assert(t@.subrange(from as int, i + 1)[i - from] == t@[i as int]);
        i = i + 1;
    }
    true
}

fn word_then_number(t: &Vec<char>, w: &Vec<char>) -> (r: bool)
    ensures
        r == is_word_then_number(t@, w@),
{
    if t.len() <= w.len() {
        return false;
    }
    let pre = slice_vec(t, 0, w.len());
    if !chars_eq(&pre, w) {
        return false;
    }
    let mut j: usize = w.len();
    while j < t.len() && is_whitespace(t[j])
        invariant
            w.len() <= j <= t.len(),
            forall|k: int| w.len() <= k < j ==> is_ws(#[trigger] t@[k]),
        decreases t.len() - j,
    {
        j = j + 1;
    }
    if j == w.len() || j == t.len() {
        proof {
            assert forall|j2: int|
                w.len() < j2 < t.len() && (forall|k: int|
                    w.len() <= k < j2 ==> is_ws(#[trigger] t@[k])) implies !all_digits(
                t@.subrange(j2, t.len() as int),
            ) by {
                if j == w.len() {
                    assert(is_ws(t@[w.len() as int]));
                } else {
                    assert(is_ws(t@[j2]));
                    assert(!is_digit(t@.subrange(j2, t.len() as int)[0]));
                }
            }
        }
        return false;
    }
    let ok = digits_from(t, j);
    proof {
        if !ok {
            assert forall|j2: int|
                w.len() < j2 < t.len() && (forall|k: int|
                    w.len() <= k < j2 ==> is_ws(#[trigger] t@[k])) implies !all_digits(
                t@.subrange(j2, t.len() as int),
            ) by {
                if j2 < j {
                    assert(is_ws(t@[j2]));
                    assert(!is_digit(t@.subrange(j2, t.len() as int)[0]));
                } else if j2 > j {
                    assert(is_ws(t@[j as int]));
                    assert(!is_ws(t@[j as int]));
                } else {
                }
            }
        }
    }
    ok
}

/// The folder name looks like a season folder of a TV series.
pub fn is_season_folder_name(name: &str) -> (r: bool)
    ensures
        r == is_season_name(name@),
{
    is_season_chars(&chars_of(name))
}

/// `is_season_folder_name` on characters.
pub fn is_season_chars(v: &Vec<char>) -> (r: bool)
    ensures
        r == is_season_name(v@),
{
    let (a, b) = trim_bounds(&v);
    let t = lower_vec(&slice_vec(v, a, b));
    word_then_number(&t, &chars_of("season")) || word_then_number(&t, &chars_of("temporada")) || (
    t.len() >= 2 && t[0] == 's' && digits_from(&t, 1))
}

/// Tiny convenience used by the walker: `full` relative to `root`, or
/// `full` itself when it is not under `root`.
pub fn relative_to(root: &str, full: &str) -> (r: String)
    ensures
        r@ == (match strip_prefix_spec(full@, root@) {
            Some(rel) => rel,
            None => full@,
        }),
{
    match strip_prefix(&chars_of(full), &chars_of(root)) {
        Some(rel) => string_of(&rel),
        None => full.to_string(),
    }
}

} // verus!
