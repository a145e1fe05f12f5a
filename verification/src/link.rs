//! Decisions of linking, renaming, re-ordering genres of, and unlinking a
//! catalogued work. The filesystem and database work around them is the
//! caller's; these say what to create, move and write.

use vstd::prelude::*;

use crate::classify::{is_sidecar_chars, is_sidecar_path, is_video_chars, is_video_path};
use crate::error::AppError;
use crate::media::{media_type_str, MediaType};
use crate::naming::{folder_name, folder_name_spec, sanitize_segment, sanitize_spec};
use crate::numfmt::{fmt_i64, int_str};
use crate::path::{
    parent_dir, parent_prefix, dir_prefix, extension_spec, file_name, file_name_spec, file_stem_spec, join, join_spec, last_index,
    last_index_of, split_stem_ext, stem_of, ext_of, trim_slashes,
};
use crate::plan::plan_parent;
use crate::sidecars::{rename_sidecar, rename_sidecar_spec};
use crate::text::{chars_eq, chars_of, extend_chars, slice_vec, str_eq, string_of};

verus! {

/// A request to link an uncatalogued video (or folder) to a TMDB work.
#[derive(Debug, Clone)]
pub struct LinkArgs {
    /// Folder containing the uncatalogued video.
    pub source_folder: String,
    /// File name of the main video within `source_folder`; empty for a
    /// whole-folder link.
    pub video_filename: String,
    pub tmdb_id: i64,
    pub media_type: String,
    /// "Mark as new" at cataloguing time.
    pub is_new: bool,
}

/// What a link did.
#[derive(Debug, Clone)]
pub struct LinkResult {
    pub media_id: i64,
    pub folder_path: String,
}

/// A whole folder is linked (moved as is) when no video file name is
/// given, or the named video is not a file in the source folder (the
/// walker surfaced a series folder).
pub fn is_folder_link(video_filename: &str, video_is_file: bool) -> (r: bool)
    ensures
        r == (video_filename@.len() == 0 || !video_is_file),
{
    let n = chars_of(video_filename).len();
    (n != 0 && !video_is_file) || n == 0
}

/// The parent and the target of a whole-folder link:
/// `<root>/<kind label>[/<genre>]` and `<parent>/<Title> [tmdb-<id>]`.
pub fn folder_link_target(
    hd_root: &str,
    kind_root_label: &str,
    genre_folder: Option<&str>,
    title: &str,
    tmdb_id: i64,
) -> (r: (String, String))
    ensures
        r.0@ == plan_parent(
            hd_root@,
            kind_root_label@,
            match genre_folder {
                Some(g) => Some(g@),
                None => None,
            },
        ),
        r.1@ == join_spec(r.0@, folder_name_spec(title@, tmdb_id as int)),
{
    let kind = sanitize_segment(kind_root_label);
    let kind_dir = join(&chars_of(hd_root), &chars_of(kind.as_str()));
    let parent = match genre_folder {
        Some(g) => {
            let gs = sanitize_segment(g);
            join(&kind_dir, &chars_of(gs.as_str()))
        },
        None => kind_dir,
    };
    let f = folder_name(title, tmdb_id);
    let target = join(&parent, &chars_of(f.as_str()));
    (string_of(&parent), string_of(&target))
}

/// The setting that holds a media type's kind-root folder label, and its
/// default.
pub fn kind_label_setting(media_type: MediaType) -> (r: (&'static str, &'static str))
    ensures
        media_type == MediaType::Movie ==> r.0@ == "movies_folder_label"@ && r.1@ == "Movies"@,
        media_type == MediaType::Tv ==> r.0@ == "series_folder_label"@ && r.1@ == "Series"@,
{
    match media_type {
        MediaType::Movie => ("movies_folder_label", "Movies"),
        MediaType::Tv => ("series_folder_label", "Series"),
    }
}

/// A request to retitle a catalogued work.
#[derive(Debug, Clone)]
pub struct RenameArgs {
    pub media_id: i64,
    pub new_title: String,
    pub drive_root: Option<String>,
}

/// Folders of a retitle: where the work is and where it goes.
#[derive(Debug, Clone)]
pub struct RenamePlan {
    pub old_folder: String,
    pub new_folder: String,
    /// The new folder name, also the new stem of the main video.
    pub new_folder_name: String,
}

/// The folder that holds a work of `media_type`: `<root>/<kind label>`,
/// plus the primary genre's folder for movies that have one.
pub open spec fn media_parent(
    root: Seq<char>,
    kind: Seq<char>,
    media_type: MediaType,
    primary: Option<Seq<char>>,
) -> Seq<char> {
    plan_parent(
        root,
        kind,
        if media_type == MediaType::Movie {
            primary
        } else {
            None
        },
    )
}

/// Plan a retitle: the work moves from `<root>/<folder_path>` to
/// `<parent>/<New Title> [tmdb-<id>]`.
pub fn plan_rename(
    hd_root: &str,
    kind_label: &str,
    media_type: MediaType,
    primary_genre: Option<&str>,
    folder_path: &str,
    new_title: &str,
    tmdb_id: i64,
) -> (r: RenamePlan)
    ensures
        r.old_folder@ == join_spec(hd_root@, folder_path@),
        r.new_folder_name@ == folder_name_spec(new_title@, tmdb_id as int),
        r.new_folder@ == join_spec(
            media_parent(
                hd_root@,
                kind_label@,
                media_type,
                match primary_genre {
                    Some(g) => Some(g@),
                    None => None,
                },
            ),
            r.new_folder_name@,
        ),
{
    let g = match media_type {
        MediaType::Movie => primary_genre,
        MediaType::Tv => None,
    };
    let (parent, _) = folder_link_target(hd_root, kind_label, g, new_title, tmdb_id);
    let name = folder_name(new_title, tmdb_id);
    let new_folder = string_of(&join(&chars_of(parent.as_str()), &chars_of(name.as_str())));
    let old_folder = string_of(&join(&chars_of(hd_root), &chars_of(folder_path)));
    RenamePlan { old_folder, new_folder, new_folder_name: name }
}

/// Index of the first video among `names`.
pub open spec fn first_video_index(names: Seq<Seq<char>>) -> Option<int>
    decreases names.len(),
{
    if names.len() == 0 {
        None
    } else {
        match first_video_index(names.drop_last()) {
            Some(i) => Some(i),
            None => if is_video_path(names.last()) {
                Some(names.len() - 1)
            } else {
                None
            },
        }
    }
}

/// The renames inside a retitled folder, as `(from, to)` paths: the first
/// video to `<new stem>.<ext>`, then each sidecar of its old stem to the
/// new stem (tags kept); moves onto themselves are left out.
pub open spec fn inside_renames(folder: Seq<char>, names: Seq<Seq<char>>, new_stem: Seq<char>) -> Seq<
    (Seq<char>, Seq<char>),
> {
    match first_video_index(names) {
        None => seq![],
        Some(i) => {
            let v = names[i];
            let old = stem_of(v);
            let ext = match ext_of(v) {
                Some(e) => e,
                None => seq![],
            };
            let nv = new_stem + seq!['.'] + ext;
            let head: Seq<(Seq<char>, Seq<char>)> = if nv == v {
                seq![]
            } else {
                seq![(join_spec(folder, v), join_spec(folder, nv))]
            };
            head + sidecar_renames(folder, names, old, new_stem)
        },
    }
}

/// Sidecar renames among `names` from stem `old` to `new`.
pub open spec fn sidecar_renames(
    folder: Seq<char>,
    names: Seq<Seq<char>>,
    old: Seq<char>,
    new: Seq<char>,
) -> Seq<(Seq<char>, Seq<char>)>
    decreases names.len(),
{
    if names.len() == 0 {
        seq![]
    } else {
        let rest = sidecar_renames(folder, names.drop_last(), old, new);
        let n = names.last();
        if is_sidecar_path(n) {
            match rename_sidecar_spec(n, old, new) {
                Some(m) => if m != n {
                    rest.push((join_spec(folder, n), join_spec(folder, m)))
                } else {
                    rest
                },
                None => rest,
            }
        } else {
            rest
        }
    }
}

pub open spec fn pair_views(v: Seq<(String, String)>) -> Seq<(Seq<char>, Seq<char>)> {
    v.map_values(|p: (String, String)| (p.0@, p.1@))
}

pub open spec fn name_views(v: Seq<String>) -> Seq<Seq<char>> {
    v.map_values(|s: String| s@)
}

fn sidecar_renames_exec(folder: &Vec<char>, names: &Vec<String>, old: &str, new: &str) -> (r: Vec<
    (String, String),
>)
    ensures
        pair_views(r@) == sidecar_renames(folder@, name_views(names@), old@, new@),
{
    let mut out: Vec<(String, String)> = Vec::new();
    let mut i: usize = 0;
    while i < names.len()
        invariant
            i <= names.len(),
            pair_views(out@) == sidecar_renames(folder@, name_views(names@).take(i as int), old@, new@),
        decreases names.len() - i,
    {
        let ghost t = name_views(names@).take(i + 1);
        proof {
            assert(t.drop_last() =~= name_views(names@).take(i as int));
            assert(t.last() == names@[i as int]@);
        }
        let n = &names[i];
        if is_sidecar_chars(&chars_of(n.as_str())) {
            match rename_sidecar(n.as_str(), old, new) {
                Some(m) => {
                    if !str_eq(m.as_str(), n.as_str()) {
                        let from = string_of(&join(folder, &chars_of(n.as_str())));
                        let to = string_of(&join(folder, &chars_of(m.as_str())));
                        let ghost prev = out@;
                        out.push((from, to));
                        proof {
                            assert(pair_views(out@) =~= pair_views(prev).push((from@, to@)));
                        }
                    }
                },
                None => {},
            }
        }
        i = i + 1;
    }
    proof {
        assert(name_views(names@).take(names.len() as int) =~= name_views(names@));
    }
    out
}

/// The renames that retitling makes inside `folder`, whose regular files
/// are `names` (in listing order).
pub fn plan_inside_renames(folder: &str, names: &Vec<String>, new_stem: &str) -> (r: Vec<(String, String)>)
    ensures
        pair_views(r@) == inside_renames(folder@, name_views(names@), new_stem@),
{
    let mut i: usize = 0;
    let mut found: Option<usize> = None;
    while i < names.len()
        invariant
            i <= names.len(),
            match found {
                None => first_video_index(name_views(names@).take(i as int)) is None,
                Some(k) => first_video_index(name_views(names@)) == Some(k as int) && k < names.len(),
            },
        decreases names.len() - i,
    {
        proof {
            assert(name_views(names@).take(i + 1).drop_last() =~= name_views(names@).take(i as int));
            assert(name_views(names@).take(i + 1).last() == names@[i as int]@);
        }
        let searching = match found {
            None => true,
            Some(_) => false,
        };
        if searching && is_video_chars(&chars_of(names[i].as_str())) {
            found = Some(i);
            proof {
                assert(first_video_index(name_views(names@).take(i + 1)) == Some(i as int));
                lemma_first_video_extends(name_views(names@), i as int + 1);
            }
        }
        i = i + 1;
    }
    let fv = chars_of(folder);
    let k = match found {
        Some(k) => k,
        None => {
            proof {
                assert(name_views(names@).take(names.len() as int) =~= name_views(names@));
            }
            return Vec::new();
        },
    };
    let v = chars_of(names[k].as_str());
    let (old, ext) = split_stem_ext(&v);
    let ext = match ext {
        Some(e) => e,
        None => Vec::new(),
    };
    let mut nv = chars_of(new_stem);
    nv.push('.');
    extend_chars(&mut nv, &ext);
    let mut out: Vec<(String, String)> = Vec::new();
    if !chars_eq(&nv, &v) {
        out.push((string_of(&join(&fv, &v)), string_of(&join(&fv, &nv))));
    }
    let olds = string_of(&old);
    let mut rest = sidecar_renames_exec(&fv, names, olds.as_str(), new_stem);
    let ghost head = out@;
    let ghost tail = rest@;
    out.append(&mut rest);
    proof {
        assert(pair_views(out@) =~= pair_views(head) + pair_views(tail));
        assert(name_views(names@)[k as int] == v@);
        let vv = v@;
        let e = match ext_of(vv) {
            Some(e) => e,
            None => seq![],
        };
        assert(ext@ == e);
        assert(nv@ == new_stem@ + seq!['.'] + e);
        let sh: Seq<(Seq<char>, Seq<char>)> = if nv@ == vv {
            seq![]
        } else {
            seq![(join_spec(folder@, vv), join_spec(folder@, nv@))]
        };
        assert(pair_views(head) =~= sh);
        assert(olds@ == stem_of(vv));
    }
    out
}

proof fn lemma_first_video_extends(names: Seq<Seq<char>>, n: int)
    requires
        0 <= n <= names.len(),
        first_video_index(names.take(n)) is Some,
    ensures
        first_video_index(names) == first_video_index(names.take(n)),
    decreases names.len() - n,
{
    if n < names.len() {
        assert(names.take(n + 1).drop_last() =~= names.take(n));
        lemma_first_video_extends(names, n + 1);
    } else {
        assert(names.take(n) =~= names);
    }
}


/// A request to re-order a work's genres; the first becomes primary.
#[derive(Debug, Clone)]
pub struct ReorderGenresArgs {
    pub media_id: i64,
    pub genre_ids: Vec<i64>,
    pub drive_root: Option<String>,
}

/// A re-ordered genre list needs at least one genre.
pub fn check_genre_ids_nonempty(genre_ids: &[i64]) -> (r: Result<(), AppError>)
    ensures
        genre_ids@.len() == 0 ==> (r matches Err(AppError::Other(m)) && m@ == "genre_ids cannot be empty"@),
        genre_ids@.len() > 0 ==> r is Ok,
{
    if genre_ids.len() == 0 {
        Err(AppError::Other("genre_ids cannot be empty".to_owned()))
    } else {
        Ok(())
    }
}

/// How `{:?}` spells a media type.
pub open spec fn media_type_debug(t: MediaType) -> Seq<char> {
    match t {
        MediaType::Movie => seq!['M', 'o', 'v', 'i', 'e'],
        MediaType::Tv => seq!['T', 'v'],
    }
}

/// Index of the first of `ids` that is not among `known`.
pub open spec fn first_unknown(ids: Seq<i64>, known: Seq<i64>) -> Option<int>
    decreases ids.len(),
{
    if ids.len() == 0 {
        None
    } else {
        match first_unknown(ids.drop_last(), known) {
            Some(i) => Some(i),
            None => if known.contains(ids.last()) {
                None
            } else {
                Some(ids.len() - 1)
            },
        }
    }
}

/// `genre <id> not known for <media type>`.
pub open spec fn unknown_genre_message(id: int, t: MediaType) -> Seq<char> {
    seq!['g', 'e', 'n', 'r', 'e', ' '] + int_str(id) + seq![
        ' ',
        'n',
        'o',
        't',
        ' ',
        'k',
        'n',
        'o',
        'w',
        'n',
        ' ',
        'f',
        'o',
        'r',
        ' ',
    ] + media_type_debug(t)
}

/// Every requested genre must be a known genre of the media type; the
/// first that is not is reported.
pub fn check_genre_ids_known(genre_ids: &[i64], known: &[i64], media_type: MediaType) -> (r: Result<
    (),
    AppError,
>)
    ensures
        match first_unknown(genre_ids@, known@) {
            None => r is Ok,
            Some(i) => r matches Err(AppError::NotFound(m)) && m@ == unknown_genre_message(
                genre_ids@[i] as int,
                media_type,
            ),
        },
{
    let mut i: usize = 0;
    while i < genre_ids.len()
        invariant
            i <= genre_ids.len(),
            first_unknown(genre_ids@.take(i as int), known@) is None,
        decreases genre_ids.len() - i,
    {
        proof {
            assert(genre_ids@.take(i + 1).drop_last() =~= genre_ids@.take(i as int));
            assert(genre_ids@.take(i + 1).last() == genre_ids@[i as int]);
        }
        let g = genre_ids[i];
        let mut j: usize = 0;
        let mut hit = false;
        while j < known.len()
            invariant
                j <= known.len(),
                hit == (exists|m: int| 0 <= m < j && known@[m] == g),
            decreases known.len() - j,
        {
            if known[j] == g {
                hit = true;
            }
            j = j + 1;
        }
        if !hit {
            proof {
                assert(!known@.contains(g));
                assert(first_unknown(genre_ids@.take(i + 1), known@) == Some(i as int));
                lemma_first_unknown_extends(genre_ids@, known@, i as int + 1);
            }
            proof {
                reveal_strlit("genre ");
                reveal_strlit(" not known for ");
                reveal_strlit("Movie");
                reveal_strlit("Tv");
            }
            let mut v = chars_of("genre ");
            extend_chars(&mut v, &fmt_i64(g));
            extend_chars(&mut v, &chars_of(" not known for "));
            match media_type {
                MediaType::Movie => extend_chars(&mut v, &chars_of("Movie")),
                MediaType::Tv => extend_chars(&mut v, &chars_of("Tv")),
            }
            let m = string_of(&v);
            proof {
                assert(m@ =~= unknown_genre_message(g as int, media_type));
            }
            return Err(AppError::NotFound(m));
        }
        proof {
            let m = choose|m: int| 0 <= m < known.len() && known@[m] == g;
            assert(known@.contains(g));
        }
        i = i + 1;
    }
    proof {
        assert(genre_ids@.take(genre_ids.len() as int) =~= genre_ids@);
    }
    Ok(())
}

proof fn lemma_first_unknown_extends(ids: Seq<i64>, known: Seq<i64>, n: int)
    requires
        0 <= n <= ids.len(),
        first_unknown(ids.take(n), known) is Some,
    ensures
        first_unknown(ids, known) == first_unknown(ids.take(n), known),
    decreases ids.len() - n,
{
    if n < ids.len() {
        assert(ids.take(n + 1).drop_last() =~= ids.take(n));
        lemma_first_unknown_extends(ids, known, n + 1);
    } else {
        assert(ids.take(n) =~= ids);
    }
}

/// Where a movie's folder goes when its primary genre changes:
/// `<root>/<movies label>[/<new primary>]/<folder base name>` (empty base
/// name when the stored folder has none).
pub open spec fn reorder_destination_spec(
    root: Seq<char>,
    movies_label: Seq<char>,
    new_primary: Option<Seq<char>>,
    folder_path: Seq<char>,
) -> Seq<char> {
    let base = match file_name_spec(folder_path) {
        Some(n) => n,
        None => seq![],
    };
    join_spec(plan_parent(root, movies_label, new_primary), base)
}

/// Destination of a movie folder after a change of primary genre.
pub fn reorder_destination(
    hd_root: &str,
    movies_label: &str,
    new_primary: Option<&str>,
    folder_path: &str,
) -> (r: String)
    ensures
        r@ == reorder_destination_spec(
            hd_root@,
            movies_label@,
            match new_primary {
                Some(g) => Some(g@),
                None => None,
            },
            folder_path@,
        ),
{
    let (parent, _) = folder_link_target(hd_root, movies_label, new_primary, "", 0);
    let base = match file_name(&chars_of(folder_path)) {
        Some(n) => n,
        None => Vec::new(),
    };
    string_of(&join(&chars_of(parent.as_str()), &base))
}

/// The primary genre's display name changed (so a movie folder moves).
pub fn primary_changed(old_name: Option<&str>, new_name: Option<&str>) -> (r: bool)
    ensures
        r == (match (old_name, new_name) {
            (Some(a), Some(b)) => a@ != b@,
            (None, None) => false,
            _ => true,
        }),
{
    match (old_name, new_name) {
        (Some(a), Some(b)) => !str_eq(a, b),
        (None, None) => false,
        _ => true,
    }
}

/// A request to unlink a catalogued work.
#[derive(Debug, Clone)]
pub struct UnlinkArgs {
    pub media_id: i64,
    /// Rename the folder (and a movie's files) back to untagged names.
    pub rename_back: bool,
    pub drive_root: Option<String>,
}

/// Default of `rename_back`: on.
pub fn default_true() -> (r: bool)
    ensures
        r,
{
    true
}

/// What an unlink did.
#[derive(Debug, Clone)]
pub struct UnlinkResult {
    pub removed_media_id: i64,
    pub new_folder_path: Option<String>,
    pub poster_deleted: bool,
}

/// Where an unlinked folder goes.
#[derive(Debug, Clone)]
pub struct UnlinkTarget {
    /// The folder's current base name.
    pub basename: String,
    /// The base name without its `[tmdb-<id>]` tag.
    pub bare_title: String,
    /// `<parent>/<bare title>`.
    pub dest: String,
    /// `<parent>/<bare title> (unlinked)`, used when `dest` is taken.
    pub fallback: String,
}

/// The untagged destinations of a catalogued folder. Errors when the
/// folder has no base name; `Ok(None)` when its name does not follow the
/// catalogued convention (it is left as is).
pub fn unlink_target(folder: &str) -> (r: Result<Option<UnlinkTarget>, AppError>)
    ensures
        match file_name_spec(folder@) {
            None => r matches Err(AppError::Other(m)) && m@ == "folder has no basename"@,
            Some(base) => match r {
                Err(_) => false,
                Ok(None) => !crate::naming::is_catalogued_spec(base),
                Ok(Some(t)) => {
                    &&& crate::naming::is_catalogued_spec(base)
                    &&& t.basename@ == base
                    &&& t.bare_title@ == crate::naming::tag_title(crate::text::trim(base))
                    &&& t.dest@ == parent_dir(folder@) + t.bare_title@
                    &&& t.fallback@ == parent_dir(folder@) + t.bare_title@ + seq![
                        ' ',
                        '(',
                        'u',
                        'n',
                        'l',
                        'i',
                        'n',
                        'k',
                        'e',
                        'd',
                        ')',
                    ]
                },
            },
        },
{
    let fv = chars_of(folder);
    let base = match file_name(&fv) {
        Some(b) => b,
        None => return Err(AppError::Other("folder has no basename".to_owned())),
    };
    let bs = string_of(&base);
    let bare = match crate::naming::strip_tmdb_tag(bs.as_str()) {
        Some(t) => t,
        None => return Ok(None),
    };
    let mut dest = parent_prefix(&fv);
    extend_chars(&mut dest, &chars_of(bare.as_str()));
    proof {
        reveal_strlit(" (unlinked)");
    }
    let mut fb = slice_vec(&dest, 0, dest.len());
    extend_chars(&mut fb, &chars_of(" (unlinked)"));
    proof {
        assert(" (unlinked)"@ =~= seq![' ', '(', 'u', 'n', 'l', 'i', 'n', 'k', 'e', 'd', ')']);
    }
    Ok(Some(UnlinkTarget { basename: bs, bare_title: bare, dest: string_of(&dest), fallback: string_of(&fb) }))
}

/// The untagged name of a file in an unlinked movie folder: a video named
/// after the old folder gets the bare title (its extension kept); a
/// sidecar of the old name is renamed like one; other files keep theirs.
pub open spec fn untag_name_spec(name: Seq<char>, old: Seq<char>, new: Seq<char>) -> Option<Seq<char>> {
    if is_video_path(name) && stem_of(name) == old {
        match ext_of(name) {
            Some(e) => if e.len() == 0 {
                Some(new)
            } else {
                Some(new + seq!['.'] + e)
            },
            None => Some(new),
        }
    } else if is_sidecar_path(name) {
        rename_sidecar_spec(name, old, new)
    } else {
        None
    }
}

/// New name of one file when its folder is unlinked, if it changes.
pub fn untag_name(name: &str, old_basename: &str, new_basename: &str) -> (r: Option<String>)
    requires
        file_name_spec(name@) == Some(name@),
    ensures
        match r {
            Some(s) => untag_name_spec(name@, old_basename@, new_basename@) == Some(s@),
            None => untag_name_spec(name@, old_basename@, new_basename@) is None,
        },
{
    let nv = chars_of(name);
    let (stem, ext) = split_stem_ext(&nv);
    if is_video_chars(&nv) && chars_eq(&stem, &chars_of(old_basename)) {
        let mut v = chars_of(new_basename);
        match ext {
            Some(e) => {
                if e.len() > 0 {
                    v.push('.');
                    extend_chars(&mut v, &e);
                }
            },
            None => {},
        }
        Some(string_of(&v))
    } else if is_sidecar_chars(&nv) {
        rename_sidecar(name, old_basename, new_basename)
    } else {
        None
    }
}

/// The new name of a season folder when the season label changes from
/// `old_label` to `new_label`: `<old> <rest>` becomes `<new> <rest>`
/// (labels sanitized); other names are left alone.
pub open spec fn relabel_spec(name: Seq<char>, old_label: Seq<char>, new_label: Seq<char>) -> Option<
    Seq<char>,
> {
    let p = sanitize_spec(old_label).push(' ');
    if p.is_prefix_of(name) {
        Some(sanitize_spec(new_label).push(' ') + name.subrange(p.len() as int, name.len() as int))
    } else {
        None
    }
}

/// Renamed season folder name, if `name` carries the old label.
pub fn relabel_season_folder(name: &str, old_label: &str, new_label: &str) -> (r: Option<String>)
    ensures
        match r {
            Some(s) => relabel_spec(name@, old_label@, new_label@) == Some(s@),
            None => relabel_spec(name@, old_label@, new_label@) is None,
        },
{
    let o = sanitize_segment(old_label);
    let mut p = chars_of(o.as_str());
    p.push(' ');
    let nv = chars_of(name);
    if nv.len() < p.len() {
        proof {
            assert(!p@.is_prefix_of(nv@));
        }
        return None;
    }
    let mut i: usize = 0;
    while i < p.len()
        invariant
            i <= p.len() <= nv.len(),
            p@ == sanitize_spec(old_label@).push(' '),
            nv@ == name@,
            forall|k: int| 0 <= k < i ==> nv@[k] == p@[k],
        decreases p.len() - i,
    {
        if nv[i] != p[i] {
            proof {
                if p@.is_prefix_of(nv@) {
                    assert(nv@.subrange(0, p.len() as int)[i as int] == nv@[i as int]);
                    assert(nv@.subrange(0, p.len() as int) == p@);
                }
                assert(!p@.is_prefix_of(nv@));
            }
            return None;
        }
        i = i + 1;
    }
    proof {
        assert(nv@.subrange(0, p.len() as int) =~= p@);
    }
    let n = sanitize_segment(new_label);
    let mut out = chars_of(n.as_str());
    out.push(' ');
    extend_chars(&mut out, &slice_vec(&nv, p.len(), nv.len()));
    Some(string_of(&out))
}

/// Changing the season label and changing it back restores every season
/// folder name that the first change renamed.
pub proof fn law_relabel_undo(name: Seq<char>, old_label: Seq<char>, new_label: Seq<char>)
    requires
        relabel_spec(name, old_label, new_label) is Some,
    ensures
        relabel_spec(relabel_spec(name, old_label, new_label).unwrap(), new_label, old_label) == Some(name),
{
    let p = sanitize_spec(old_label).push(' ');
    let q = sanitize_spec(new_label).push(' ');
    let rest = name.subrange(p.len() as int, name.len() as int);
    let renamed = q + rest;
    assert(renamed.subrange(0, q.len() as int) =~= q);
    assert(q.is_prefix_of(renamed));
    assert(renamed.subrange(q.len() as int, renamed.len() as int) =~= rest);
    assert(name.subrange(0, p.len() as int) =~= p);
    assert(p + rest =~= name);
}


/// The setting and default label of a kind-root folder named by its
/// database spelling (`"movie"` or `"tv"`).
pub fn root_label_key(kind: &str) -> (r: Result<(&'static str, &'static str), AppError>)
    ensures
        kind@ == "movie"@ ==> (r matches Ok((k, d)) && k@ == "movies_folder_label"@ && d@ == "Movies"@),
        kind@ == "tv"@ ==> (r matches Ok((k, d)) && k@ == "series_folder_label"@ && d@ == "Series"@),
        kind@ != "movie"@ && kind@ != "tv"@ ==> (r matches Err(AppError::Other(m)) && m@ == "unknown kind: "@
            + kind@),
{
    proof {
        reveal_strlit("movie");
        reveal_strlit("tv");
        assert("movie"@.len() != "tv"@.len());
    }
    if str_eq(kind, "movie") {
        Ok(("movies_folder_label", "Movies"))
    } else if str_eq(kind, "tv") {
        Ok(("series_folder_label", "Series"))
    } else {
        let mut v = chars_of("unknown kind: ");
        extend_chars(&mut v, &chars_of(kind));
        let m = string_of(&v);
        assert(m@ =~= "unknown kind: "@ + kind@);
        Err(AppError::Other(m))
    }
}

/// The move of a kind-root folder when its label changes:
/// `<drive>/<old>` to `<drive>/<new>` (labels sanitized); nothing when
/// the label is unchanged.
pub fn label_move(drive: &str, old_label: &str, new_label: &str) -> (r: Option<(String, String)>)
    ensures
        old_label@ == new_label@ ==> r is None,
        old_label@ != new_label@ ==> (r matches Some((f, t)) && f@ == join_spec(drive@, sanitize_spec(old_label@))
            && t@ == join_spec(drive@, sanitize_spec(new_label@))),
{
    if str_eq(old_label, new_label) {
        return None;
    }
    let d = chars_of(drive);
    let o = sanitize_segment(old_label);
    let n = sanitize_segment(new_label);
    Some((string_of(&join(&d, &chars_of(o.as_str()))), string_of(&join(&d, &chars_of(n.as_str())))))
}

/// The merge of a genre folder when the genre's display name changes:
/// `<drive>/<movies label>/<old name>` into `<drive>/<movies label>/<new
/// name>` (each sanitized); nothing when the display name is unchanged.
pub fn genre_folder_move(drive: &str, movies_label: &str, old_display: &str, new_display: &str) -> (r: Option<
    (String, String),
>)
    ensures
        old_display@ == new_display@ ==> r is None,
        old_display@ != new_display@ ==> (r matches Some((f, t)) && f@ == join_spec(
            join_spec(drive@, sanitize_spec(movies_label@)),
            sanitize_spec(old_display@),
        ) && t@ == join_spec(join_spec(drive@, sanitize_spec(movies_label@)), sanitize_spec(new_display@))),
{
    if str_eq(old_display, new_display) {
        return None;
    }
    let l = sanitize_segment(movies_label);
    let root = join(&chars_of(drive), &chars_of(l.as_str()));
    let o = sanitize_segment(old_display);
    let n = sanitize_segment(new_display);
    Some((string_of(&join(&root, &chars_of(o.as_str()))), string_of(&join(&root, &chars_of(n.as_str())))))
}


/// Unlinking undoes the naming of linking: the folder that linking named
/// `<Title> [tmdb-<id>]` under `parent` is recognised as catalogued, its
/// bare title is the sanitized title, and it goes back to
/// `<parent>/<sanitized title>`.
pub proof fn law_unlink_undoes_link_name(parent: Seq<char>, title: Seq<char>, tmdb_id: i64)
    requires
        tmdb_id >= 0,
    ensures
        ({
            let name = folder_name_spec(title, tmdb_id as int);
            let folder = join_spec(parent, name);
            &&& file_name_spec(folder) == Some(name)
            &&& crate::naming::is_catalogued_spec(name)
            &&& crate::naming::tag_title(crate::text::trim(name)) == sanitize_spec(title)
            &&& parent_dir(folder) + sanitize_spec(title) == join_spec(parent, sanitize_spec(title))
        }),
{
    let name = folder_name_spec(title, tmdb_id as int);
    let s = sanitize_spec(title);
    crate::naming::lemma_folder_name_no_slash(title, tmdb_id);
    crate::naming::lemma_sanitize_no_slash(title);
    crate::naming::lemma_sanitized_edges(crate::naming::nfc_of(title));
    crate::naming::law_folder_name_roundtrip(title, tmdb_id);
    assert(name[0] == s[0]);
    assert(!crate::path::is_dot_segment(name)) by {
        assert(name.last() == ']');
        if name.len() == 1 {
            assert(name[0] == name.last());
        }
        if name.len() == 2 {
            assert(name[1] == name.last());
        }
    }
    crate::path::lemma_file_name_of_join(parent, name);
    let p = if parent.len() == 0 || parent.last() == '/' {
        parent
    } else {
        parent + seq!['/']
    };
    let folder = join_spec(parent, name);
    assert(folder =~= p + name);
    assert(folder.last() == name.last());
    assert(crate::path::trim_slashes(folder) == folder);
    crate::path::lemma_last_index_of_append(p, name, '/');
    if p.len() > 0 {
        assert(p.last() == '/');
        assert(crate::path::last_index_of(p, '/') == p.len() - 1);
    }
    assert(parent_dir(folder) =~= p);
    assert(s[0] != '/');
    assert(join_spec(parent, s) =~= p + s);
}

} // verus!
