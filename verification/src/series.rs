//! The rules of linking a batch of episode files to a TV series, and of
//! re-cataloguing an existing series in place.
//!
//! Layout produced:
//!   `<HD>/<Series label>/<Title> [tmdb-<id>]/<Season label> N/SXXEYY[.Title].ext`

use vstd::prelude::*;

use crate::error::AppError;
use crate::naming::{folder_name, folder_name_spec, lemma_sanitize_no_slash, sanitize_segment, sanitize_spec};
use crate::numfmt::{
    all_digits, digit_val, digits_of, digits_val, fmt_i64, fmt_i64_pad2, int_str, int_str_pad2, is_dec, is_digit,
    lemma_digits_of_shape, lemma_parse_int_str,
};
use crate::path::{
    extension, extension_spec, join, join_spec, same_path, same_path_spec, strip_prefix, strip_prefix_spec,
};
use crate::path::{file_name, file_name_spec, is_dot_segment, lemma_file_name_of_join, lemma_file_name_plain};
use crate::recatalog::{
    digit_run, episode_digits, episode_len, episode_start, first_tag, first_tag_from, parse_season_episode,
    parse_season_episode_spec, season_digits, season_of_dir, tag_at, DiscoveredSeason,
};
use crate::sidecars::string_views;
use crate::text::{chars_of, extend_chars, string_of, trim, trim_bounds, trim_end, trim_start};
use crate::tmdb::{episode_by_number, episode_index, opt_view, TmdbEpisode};

verus! {

/// One episode file of a batch: its folder and its file name.
#[derive(Debug, Clone)]
pub struct EpisodeSourceArg {
    pub folder: String,
    pub video_filename: String,
}

/// A request to link episode files to a series.
#[derive(Debug, Clone)]
pub struct LinkAsSeriesArgs {
    pub tmdb_id: i64,
    pub season: i64,
    /// First-episode number for the selection; the i-th source becomes
    /// episode `start_episode + i`.
    pub start_episode: i64,
    /// Rename each file to `S{XX}E{YY}[.{Title}].{ext}` (else keep its
    /// name, sanitized).
    pub rename: bool,
    /// Fetch one still image per episode.
    pub download_episode_posters: bool,
    /// "Mark as new", honoured only when the series row is created.
    pub is_new: bool,
    /// Source files in episode order.
    pub sources: Vec<EpisodeSourceArg>,
}

/// Default first episode of a batch: 1.
pub fn default_start_episode() -> (r: i64)
    ensures
        r == 1,
{
    1
}

/// Default of the batch's on/off options: on.
pub fn default_true_series() -> (r: bool)
    ensures
        r,
{
    true
}

/// What a series link did.
#[derive(Debug, Clone)]
pub struct LinkSeriesResult {
    pub media_id: i64,
    pub series_folder: String,
    pub season_folder: String,
    pub episodes_moved: usize,
}

/// The checks made on a batch before any work: at least one source, and
/// neither the season nor the first episode negative.
pub fn validate_series_batch(n_sources: usize, season: i64, start_episode: i64) -> (r: Result<(), AppError>)
    ensures
        n_sources == 0 ==> (r matches Err(AppError::Other(m)) && m@ == "at least one episode required"@),
        n_sources > 0 && season < 0 ==> (r matches Err(AppError::Other(m)) && m@ == "season must be >= 0"@),
        n_sources > 0 && season >= 0 && start_episode < 0 ==> (r matches Err(AppError::Other(m)) && m@
            == "start_episode must be >= 0"@),
        n_sources > 0 && season >= 0 && start_episode >= 0 ==> r is Ok,
{
    if n_sources == 0 {
        return Err(AppError::Other("at least one episode required".to_owned()));
    }
    if season < 0 {
        return Err(AppError::Other("season must be >= 0".to_owned()));
    }
    if start_episode < 0 {
        return Err(AppError::Other("start_episode must be >= 0".to_owned()));
    }
    Ok(())
}

/// Episode number of the `idx`-th source of a batch.
pub fn episode_number(start_episode: i64, idx: usize) -> (r: i64)
    requires
        0 <= start_episode,
        start_episode + idx <= i64::MAX,
    ensures
        r == start_episode + idx,
{
    start_episode + idx as i64
}

/// A TMDB episode title as used in names and rows: trimmed, absent when
/// blank.
pub open spec fn clean_title_spec(name: Option<Seq<char>>) -> Option<Seq<char>> {
    match name {
        Some(n) => if trim(n).len() > 0 {
            Some(trim(n))
        } else {
            None
        },
        None => None,
    }
}

/// `name.map(str::trim).filter(|s| !s.is_empty())`.
pub fn clean_title(name: Option<&str>) -> (r: Option<&str>)
    ensures
        match r {
            Some(t) => clean_title_spec(match name {
                Some(n) => Some(n@),
                None => None,
            }) == Some(t@),
            None => clean_title_spec(match name {
                Some(n) => Some(n@),
                None => None,
            }) is None,
        },
{
    match name {
        Some(n) => {
            let v = chars_of(n);
            let (a, b) = trim_bounds(&v);
            if a < b {
                proof {
                    assert(v@ == n@);
                }
                Some(n.substring_char(a, b))
            } else {
                None
            }
        },
        None => None,
    }
}

/// `S{season:02}E{episode:02}[.{sanitized title}].{ext}`.
pub open spec fn episode_file_name_spec(
    season: int,
    episode: int,
    title: Option<Seq<char>>,
    ext: Seq<char>,
) -> Seq<char> {
    let head = seq!['S'] + int_str_pad2(season) + seq!['E'] + int_str_pad2(episode);
    match title {
        Some(t) => head + seq!['.'] + sanitize_spec(t) + seq!['.'] + ext,
        None => head + seq!['.'] + ext,
    }
}

/// The canonical episode file name; the title segment is sanitized, and
/// left out when there is no title.
pub fn episode_file_name(season: i64, episode: i64, title: Option<&str>, ext: &str) -> (r: String)
    ensures
        r@ == episode_file_name_spec(
            season as int,
            episode as int,
            match title {
                Some(t) => Some(t@),
                None => None,
            },
            ext@,
        ),
{
    let mut v: Vec<char> = Vec::new();
    v.push('S');
    extend_chars(&mut v, &fmt_i64_pad2(season));
    v.push('E');
    extend_chars(&mut v, &fmt_i64_pad2(episode));
    match title {
        Some(t) => {
            v.push('.');
            let st = sanitize_segment(t);
            extend_chars(&mut v, &chars_of(st.as_str()));
        },
        None => {},
    }
    v.push('.');
    extend_chars(&mut v, &chars_of(ext));
    let r = string_of(&v);
    proof {
        let head = seq!['S'] + int_str_pad2(season as int) + seq!['E'] + int_str_pad2(episode as int);
        match title {
            Some(t) => {
                assert(r@ =~= head + seq!['.'] + sanitize_spec(t@) + seq!['.'] + ext@);
            },
            None => {
                assert(r@ =~= head + seq!['.'] + ext@);
            },
        }
    }
    r
}

/// `"mkv"`: the extension assumed for a file that has none.
pub open spec fn default_ext() -> Seq<char> {
    seq!['m', 'k', 'v']
}

/// The extension of a path, or `"mkv"`.
pub open spec fn ext_or_mkv(path: Seq<char>) -> Seq<char> {
    match extension_spec(path) {
        Some(e) => e,
        None => default_ext(),
    }
}

fn ext_or_mkv_exec(path: &str) -> (r: Vec<char>)
    ensures
        r@ == ext_or_mkv(path@),
{
    match extension(&chars_of(path)) {
        Some(e) => e,
        None => {
            let mut v: Vec<char> = Vec::new();
            v.push('m');
            v.push('k');
            v.push('v');
            assert(v@ =~= default_ext());
            v
        },
    }
}

/// Name a linked episode file gets in its season folder.
pub open spec fn series_episode_name_spec(
    rename: bool,
    season: int,
    episode: int,
    title: Option<Seq<char>>,
    video_filename: Seq<char>,
) -> Seq<char> {
    if rename {
        episode_file_name_spec(season, episode, title, ext_or_mkv(video_filename))
    } else {
        sanitize_spec(video_filename)
    }
}

/// With `rename`, the canonical episode name (extension kept, `mkv` when
/// there is none); without, the original name with illegal characters
/// stripped.
pub fn series_episode_name(
    rename: bool,
    season: i64,
    episode: i64,
    title: Option<&str>,
    video_filename: &str,
) -> (r: String)
    ensures
        r@ == series_episode_name_spec(
            rename,
            season as int,
            episode as int,
            match title {
                Some(t) => Some(t@),
                None => None,
            },
            video_filename@,
        ),
{
    if rename {
        let ext = string_of(&ext_or_mkv_exec(video_filename));
        episode_file_name(season, episode, title, ext.as_str())
    } else {
        sanitize_segment(video_filename)
    }
}

/// `<sanitized season label> <season>`.
pub open spec fn season_folder_name_spec(label: Seq<char>, season: int) -> Seq<char> {
    sanitize_spec(label) + seq![' '] + int_str(season)
}

/// Name of a season folder inside a series folder.
pub fn season_folder_name(season_label: &str, season: i64) -> (r: String)
    ensures
        r@ == season_folder_name_spec(season_label@, season as int),
{
    let l = sanitize_segment(season_label);
    let mut v = chars_of(l.as_str());
    v.push(' ');
    extend_chars(&mut v, &fmt_i64(season));
    string_of(&v)
}

/// `<root>/<sanitized series label>/<Title> [tmdb-<id>]`.
pub open spec fn series_folder_spec(root: Seq<char>, label: Seq<char>, title: Seq<char>, tmdb_id: int) -> Seq<char> {
    join_spec(join_spec(root, sanitize_spec(label)), folder_name_spec(title, tmdb_id))
}

/// Folder of a newly catalogued series.
pub fn series_folder(hd_root: &str, series_label: &str, title: &str, tmdb_id: i64) -> (r: String)
    ensures
        r@ == series_folder_spec(hd_root@, series_label@, title@, tmdb_id as int),
{
    let l = sanitize_segment(series_label);
    let root = join(&chars_of(hd_root), &chars_of(l.as_str()));
    let f = folder_name(title, tmdb_id);
    string_of(&join(&root, &chars_of(f.as_str())))
}

/// `poster/episodes/{tv_id}_s{season:02}e{episode:02}.jpg`.
pub open spec fn still_rel_path_spec(tv_id: int, season: int, episode: int) -> Seq<char> {
    seq!['p', 'o', 's', 't', 'e', 'r', '/', 'e', 'p', 'i', 's', 'o', 'd', 'e', 's', '/'] + int_str(tv_id)
        + seq!['_', 's'] + int_str_pad2(season) + seq!['e'] + int_str_pad2(episode) + seq![
        '.',
        'j',
        'p',
        'g',
    ]
}

/// Where an episode still is cached, relative to the drive root.
pub fn still_rel_path(tv_id: i64, season: i64, episode: i64) -> (r: String)
    ensures
        r@ == still_rel_path_spec(tv_id as int, season as int, episode as int),
{
    proof {
        reveal_strlit("poster/episodes/");
        reveal_strlit(".jpg");
    }
    let mut v = chars_of("poster/episodes/");
    extend_chars(&mut v, &fmt_i64(tv_id));
    v.push('_');
    v.push('s');
    extend_chars(&mut v, &fmt_i64_pad2(season));
    v.push('e');
    extend_chars(&mut v, &fmt_i64_pad2(episode));
    extend_chars(&mut v, &chars_of(".jpg"));
    let r = string_of(&v);
    proof {
        assert(r@ =~= still_rel_path_spec(tv_id as int, season as int, episode as int));
    }
    r
}

/// `poster/{tmdb_id}.jpg`.
pub open spec fn poster_rel_path_spec(tmdb_id: int) -> Seq<char> {
    seq!['p', 'o', 's', 't', 'e', 'r', '/'] + int_str(tmdb_id) + seq!['.', 'j', 'p', 'g']
}

/// Where a poster is cached, relative to the drive root.
pub fn poster_rel_path(tmdb_id: i64) -> (r: String)
    ensures
        r@ == poster_rel_path_spec(tmdb_id as int),
{
    proof {
        reveal_strlit("poster/");
        reveal_strlit(".jpg");
    }
    let mut v = chars_of("poster/");
    extend_chars(&mut v, &fmt_i64(tmdb_id));
    extend_chars(&mut v, &chars_of(".jpg"));
    let r = string_of(&v);
    proof {
        assert(r@ =~= poster_rel_path_spec(tmdb_id as int));
    }
    r
}

/// A TMDB runtime as stored: 0 and negative values mean "unknown".
pub fn clean_runtime(runtime: Option<i64>) -> (r: Option<i64>)
    ensures
        r == (match runtime {
            Some(m) => if m > 0 {
                Some(m)
            } else {
                None::<i64>
            },
            None => None::<i64>,
        }),
{
    match runtime {
        Some(m) => if m > 0 {
            Some(m)
        } else {
            None
        },
        None => None,
    }
}

/// `path` relative to `root`, when it lies under it.
pub fn relative_opt(path: &str, root: &str) -> (r: Option<String>)
    ensures
        match r {
            Some(s) => strip_prefix_spec(path@, root@) == Some(s@),
            None => strip_prefix_spec(path@, root@) is None,
        },
{
    match strip_prefix(&chars_of(path), &chars_of(root)) {
        Some(rel) => Some(string_of(&rel)),
        None => None,
    }
}

/// `(genre id, is primary)` pairs for an ordered genre list: the first is
/// primary.
pub fn genre_pairs(ids: &[i64]) -> (r: Vec<(i64, bool)>)
    ensures
        r.len() == ids.len(),
        forall|i: int| 0 <= i < ids.len() ==> #[trigger] r@[i] == (ids@[i], i == 0),
{
    let mut out: Vec<(i64, bool)> = Vec::new();
    let mut i: usize = 0;
    while i < ids.len()
        invariant
            i <= ids.len(),
            out.len() == i,
            forall|k: int| 0 <= k < i ==> #[trigger] out@[k] == (ids@[k], k == 0),
        decreases ids.len() - i,
    {
        out.push((ids[i], i == 0));
        i = i + 1;
    }
    out
}


/// The TMDB title of episode `ep` in a season listing, cleaned.
pub open spec fn tmdb_title(episodes: Seq<TmdbEpisode>, ep: i64) -> Option<Seq<char>> {
    match episode_index(episodes, ep) {
        Some(k) => clean_title_spec(opt_view(episodes[k].name)),
        None => None,
    }
}

/// The cleaned title of the TMDB episode at `idx`, if any.
fn title_at(episodes: &Vec<TmdbEpisode>, idx: Option<usize>) -> (r: Option<String>)
    requires
        idx matches Some(k) ==> k < episodes.len(),
    ensures
        opt_view(r) == (match idx {
            Some(k) => clean_title_spec(opt_view(episodes@[k as int].name)),
            None => None,
        }),
{
    match idx {
        Some(k) => match &episodes[k].name {
            Some(n) => match clean_title(Some(n.as_str())) {
                Some(t) => Some(t.to_owned()),
                None => None,
            },
            None => None,
        },
        None => None,
    }
}

/// One source file of a series batch, planned.
#[derive(Debug, Clone)]
pub struct EpisodePlan {
    /// Where the file is: its folder joined with its file name.
    pub from: String,
    pub episode_number: i64,
    /// Index of the TMDB episode with that number, if any.
    pub tmdb_index: Option<usize>,
    /// That episode's cleaned title.
    pub title: Option<String>,
    /// The name it gets in the season folder.
    pub file_name: String,
    /// Where it goes: the season folder joined with `file_name`.
    pub to: String,
}

/// The `idx`-th source of a batch, planned: episode `start + idx`, its
/// TMDB match and title, and its new name and place in `season_folder`.
pub open spec fn episode_plan_spec(
    p: EpisodePlan,
    src: EpisodeSourceArg,
    idx: int,
    season_folder: Seq<char>,
    season: i64,
    start_episode: i64,
    rename: bool,
    episodes: Seq<TmdbEpisode>,
) -> bool {
    let ep = start_episode + idx;
    &&& p.episode_number == ep
    &&& p.from@ == join_spec(src.folder@, src.video_filename@)
    &&& p.tmdb_index == (match episode_index(episodes, ep as i64) {
        Some(k) => Some(k as usize),
        None => None::<usize>,
    })
    &&& opt_view(p.title) == tmdb_title(episodes, ep as i64)
    &&& p.file_name@ == series_episode_name_spec(
        rename,
        season as int,
        ep,
        tmdb_title(episodes, ep as i64),
        src.video_filename@,
    )
    &&& p.to@ == join_spec(season_folder, p.file_name@)
}

/// The plan of a whole batch, source by source and in order: the `i`-th
/// source becomes episode `start_episode + i` of the batch's season,
/// titled from the season listing `episodes`, and moves into
/// `season_folder`.
pub fn plan_series_episodes(args: &LinkAsSeriesArgs, season_folder: &str, episodes: &Vec<TmdbEpisode>) -> (r: Vec<
    EpisodePlan,
>)
    requires
        0 <= args.start_episode,
        args.start_episode + args.sources.len() <= i64::MAX + 1,
    ensures
        r.len() == args.sources.len(),
        forall|i: int|
            0 <= i < r.len() ==> episode_plan_spec(
                #[trigger] r@[i],
                args.sources@[i],
                i,
                season_folder@,
                args.season,
                args.start_episode,
                args.rename,
                episodes@,
            ),
{
    let mut out: Vec<EpisodePlan> = Vec::new();
    let mut i: usize = 0;
    while i < args.sources.len()
        invariant
            i <= args.sources.len(),
            out.len() == i,
            0 <= args.start_episode,
            args.start_episode + args.sources.len() <= i64::MAX + 1,
            forall|k: int|
                0 <= k < i ==> episode_plan_spec(
                    #[trigger] out@[k],
                    args.sources@[k],
                    k,
                    season_folder@,
                    args.season,
                    args.start_episode,
                    args.rename,
                    episodes@,
                ),
        decreases args.sources.len() - i,
    {
        let src = &args.sources[i];
        let ep = episode_number(args.start_episode, i);
        let idx = episode_by_number(episodes, ep);
        let title = title_at(episodes, idx);
        let t = match &title {
            Some(t) => Some(t.as_str()),
            None => None,
        };
        let name = series_episode_name(args.rename, args.season, ep, t, src.video_filename.as_str());
        let from = string_of(&join(&chars_of(src.folder.as_str()), &chars_of(src.video_filename.as_str())));
        let to = string_of(&join(&chars_of(season_folder), &chars_of(name.as_str())));
        out.push(EpisodePlan { from, episode_number: ep, tmdb_index: idx, title, file_name: name, to });
        i = i + 1;
    }
    out
}

/// Where re-cataloguing puts the file at `file_path` of a season folder
/// numbered `season_no`: the canonical name of its episode (with
/// `rename`) or its own name, in the season folder; `None` for a path
/// without a file name or a name without an episode tag.
pub open spec fn recatalog_dest_spec(
    file_path: Seq<char>,
    season_folder: Seq<char>,
    season_no: i64,
    rename: bool,
    episodes: Seq<TmdbEpisode>,
) -> Option<Seq<char>> {
    match file_name_spec(file_path) {
        None => None,
        Some(name) => match parse_season_episode_spec(name) {
            None => None,
            Some((_, ep)) => Some(
                join_spec(
                    season_folder,
                    if rename {
                        episode_file_name_spec(season_no as int, ep as int, tmdb_title(episodes, ep), ext_or_mkv(file_path))
                    } else {
                        name
                    },
                ),
            ),
        },
    }
}

/// One season of a re-catalogue plan: its folder and video file names.
#[derive(Debug, Clone)]
pub struct RecatalogPlanSeason {
    pub season_number: i64,
    pub season_folder: String,
    pub video_filenames: Vec<String>,
}

/// What a re-catalogue would work on.
#[derive(Debug, Clone)]
pub struct RecatalogPlan {
    pub media_id: i64,
    pub tmdb_id: i64,
    pub title: String,
    pub poster_path: Option<String>,
    pub poster_url: Option<String>,
    pub series_folder: String,
    pub seasons: Vec<RecatalogPlanSeason>,
}

/// A request to re-catalogue a series.
#[derive(Debug, Clone)]
pub struct RecatalogArgs {
    pub media_id: i64,
    /// Rename files in place to the canonical episode name.
    pub rename: bool,
    /// Fetch one still per episode.
    pub download_episode_posters: bool,
    /// Overwrite the series row's `is_new` flag when set.
    pub set_is_new: Option<bool>,
    pub drive_root: Option<String>,
}

/// What a re-catalogue did.
#[derive(Debug, Clone)]
pub struct RecatalogResult {
    pub seasons_processed: usize,
    pub episodes_processed: usize,
    pub episodes_renamed: usize,
    pub stills_downloaded: usize,
    /// File names that could not be matched to an episode.
    pub skipped: Vec<String>,
}

/// The file names of `paths` that have one, in order.
pub open spec fn names_of(paths: Seq<Seq<char>>) -> Seq<Seq<char>>
    decreases paths.len(),
{
    if paths.len() == 0 {
        seq![]
    } else {
        match file_name_spec(paths.last()) {
            Some(n) => names_of(paths.drop_last()).push(n),
            None => names_of(paths.drop_last()),
        }
    }
}

fn file_names(paths: &Vec<String>) -> (r: Vec<String>)
    ensures
        string_views(r@) == names_of(string_views(paths@)),
{
    let mut out: Vec<String> = Vec::new();
    let mut i: usize = 0;
    while i < paths.len()
        invariant
            i <= paths.len(),
            string_views(out@) == names_of(string_views(paths@).take(i as int)),
        decreases paths.len() - i,
    {
        proof {
            assert(string_views(paths@).take(i + 1).drop_last() =~= string_views(paths@).take(i as int));
            assert(string_views(paths@).take(i + 1).last() == paths@[i as int]@);
        }
        match file_name(&chars_of(paths[i].as_str())) {
            Some(n) => {
                let ghost prev = out@;
                let s = string_of(&n);
                out.push(s);
                proof {
                    assert(string_views(out@) =~= string_views(prev).push(s@));
                }
            },
            None => {},
        }
        i = i + 1;
    }
    proof {
        assert(string_views(paths@).take(paths.len() as int) =~= string_views(paths@));
    }
    out
}

/// The plan's view of discovered seasons: same order, each file by name.
pub fn plan_seasons(discovered: &Vec<DiscoveredSeason>) -> (r: Vec<RecatalogPlanSeason>)
    ensures
        r.len() == discovered.len(),
        forall|i: int|
            0 <= i < r.len() ==> {
                &&& (#[trigger] r@[i]).season_number == discovered@[i].season_number
                &&& r@[i].season_folder@ == discovered@[i].season_folder@
                &&& string_views(r@[i].video_filenames@) == names_of(string_views(discovered@[i].files@))
            },
{
    let mut out: Vec<RecatalogPlanSeason> = Vec::new();
    let mut i: usize = 0;
    while i < discovered.len()
        invariant
            i <= discovered.len(),
            out.len() == i,
            forall|k: int|
                0 <= k < i ==> {
                    &&& (#[trigger] out@[k]).season_number == discovered@[k].season_number
                    &&& out@[k].season_folder@ == discovered@[k].season_folder@
                    &&& string_views(out@[k].video_filenames@) == names_of(
                        string_views(discovered@[k].files@),
                    )
                },
        decreases discovered.len() - i,
    {
        let d = &discovered[i];
        out.push(
            RecatalogPlanSeason {
                season_number: d.season_number,
                season_folder: d.season_folder.clone(),
                video_filenames: file_names(&d.files),
            },
        );
        i = i + 1;
    }
    out
}

/// What to do with one file of a season during a re-catalogue.
#[derive(Debug, Clone)]
pub enum RecatalogStep {
    /// The file name has no episode tag: report it as skipped.
    Skip { filename: String },
    /// Record the file as episode `episode_number` of the folder's season,
    /// under `dest` (renamed there first when it differs from the file).
    Episode {
        filename: String,
        season_number: i64,
        episode_number: i64,
        /// Index of the matching TMDB episode, if any.
        tmdb_index: Option<usize>,
        title: Option<String>,
        dest: String,
    },
}

/// What re-cataloguing does on disk with one episode file.
#[derive(Debug, Clone)]
pub enum RecatalogMove {
    /// Record the episode at this path; nothing moves.
    Keep(String),
    /// Rename the file, then record the episode at `to`.
    Rename { from: String, to: String },
    /// The canonical name is taken by another file: report the file as
    /// skipped.
    Skip,
}

/// The move for an episode file at `file_path` whose planned destination
/// is `dest`: without renaming, or when the file is already there (as a
/// path), it stays; otherwise it is renamed, unless the destination
/// exists, in which case it is skipped.
pub fn recatalog_move(file_path: &str, dest: &str, rename: bool, dest_exists: bool) -> (r: RecatalogMove)
    ensures
        !rename ==> (r matches RecatalogMove::Keep(p) && p@ == file_path@),
        rename && same_path_spec(dest@, file_path@) ==> (r matches RecatalogMove::Keep(p) && p@ == dest@),
        rename && !same_path_spec(dest@, file_path@) && dest_exists ==> r is Skip,
        rename && !same_path_spec(dest@, file_path@) && !dest_exists ==> (r matches RecatalogMove::Rename {
            from,
            to,
        } && from@ == file_path@ && to@ == dest@),
{
    if !rename {
        RecatalogMove::Keep(file_path.to_owned())
    } else if same_path(dest, file_path) {
        RecatalogMove::Keep(dest.to_owned())
    } else if dest_exists {
        RecatalogMove::Skip
    } else {
        RecatalogMove::Rename { from: file_path.to_owned(), to: dest.to_owned() }
    }
}

/// The step for the file at `file_path` in season folder `season_folder`
/// numbered `season_no`; `None` when the path has no file name. The
/// folder's season wins over the one in the file name; the episode comes
/// from the file name's tag and is matched against `episodes`.
pub fn plan_recatalog_file(
    file_path: &str,
    season_folder: &str,
    season_no: i64,
    rename: bool,
    episodes: &Vec<TmdbEpisode>,
) -> (r: Option<RecatalogStep>)
    ensures
        r matches Some(RecatalogStep::Episode { dest, .. }) ==> recatalog_dest_spec(
            file_path@,
            season_folder@,
            season_no,
            rename,
            episodes@,
        ) == Some(dest@),
        match file_name_spec(file_path@) {
            None => r is None,
            Some(name) => match parse_season_episode_spec(name) {
                None => r matches Some(RecatalogStep::Skip { filename }) && filename@ == name,
                Some((_, ep)) => {
                    let idx = episode_index(episodes@, ep);
                    let title = match idx {
                        Some(k) => clean_title_spec(opt_view(episodes@[k].name)),
                        None => None,
                    };
                    let desired = if rename {
                        episode_file_name_spec(season_no as int, ep as int, title, ext_or_mkv(file_path@))
                    } else {
                        name
                    };
                    r matches Some(
                        RecatalogStep::Episode {
                            filename,
                            season_number,
                            episode_number,
                            tmdb_index,
                            title: t,
                            dest,
                        },
                    ) && filename@ == name && season_number == season_no && episode_number == ep
                        && tmdb_index == (match idx {
                        Some(k) => Some(k as usize),
                        None => None::<usize>,
                    }) && opt_view(t) == title && dest@ == join_spec(season_folder@, desired)
                },
            },
        },
{
    let name_v = match file_name(&chars_of(file_path)) {
        Some(n) => n,
        None => return None,
    };
    let name = string_of(&name_v);
    let (_, ep) = match parse_season_episode(name.as_str()) {
        Some(p) => p,
        None => return Some(RecatalogStep::Skip { filename: name }),
    };
    let idx = episode_by_number(episodes, ep);
    let title = title_at(episodes, idx);
    let desired = if rename {
        let ext = string_of(&ext_or_mkv_exec(file_path));
        let t = match &title {
            Some(t) => Some(t.as_str()),
            None => None,
        };
        episode_file_name(season_no, ep, t, ext.as_str())
    } else {
        name.clone()
    };
    let dest = string_of(&join(&chars_of(season_folder), &chars_of(desired.as_str())));
    Some(
        RecatalogStep::Episode {
            filename: name,
            season_number: season_no,
            episode_number: ep,
            tmdb_index: idx,
            title,
            dest,
        },
    )
}


proof fn lemma_digit_run_exact(s: Seq<char>, i: int, k: int)
    requires
        0 <= i,
        0 <= k,
        i + k <= s.len(),
        forall|j: int| i <= j < i + k ==> is_digit(#[trigger] s[j]),
        i + k == s.len() || !is_dec(s[i + k]),
    ensures
        digit_run(s, i) == k,
    decreases k,
{
    if k > 0 {
        lemma_digit_run_exact(s, i + 1, k - 1);
    }
}

proof fn lemma_pad2_shape(n: int)
    requires
        0 <= n < 1000,
    ensures
        2 <= int_str_pad2(n).len() <= 3,
        all_digits(int_str_pad2(n)),
        digits_val(int_str_pad2(n)) == n,
{
    lemma_digits_of_shape(n as nat);
    if n < 10 {
        let d = int_str_pad2(n);
        assert(d.drop_last() =~= seq!['0']);
        assert(seq!['0'].drop_last() =~= Seq::<char>::empty());
        assert(digits_val(seq!['0']) == 0) by {
            assert(digits_val(seq!['0']) == digits_val(Seq::<char>::empty()) * 10 + digit_val('0'));
        }
        assert(d.last() == digits_of(n as nat)[0]);
        assert(digits_val(digits_of(n as nat)) == digits_val(digits_of(n as nat).drop_last()) * 10
            + digit_val(digits_of(n as nat).last()));
        assert(digits_of(n as nat).drop_last() =~= Seq::<char>::empty());
        assert(is_digit(digits_of(n as nat)[0]));
        assert(all_digits(d)) by {
            assert forall|k: int| 0 <= k < d.len() implies is_digit(#[trigger] d[k]) by {
                if k == 1 {
                    assert(d[1] == digits_of(n as nat)[0]);
                }
            }
        }
    } else {
        assert(n >= 10);
        assert(digits_of(n as nat) =~= digits_of((n / 10) as nat).push(
            crate::numfmt::digit_char((n % 10) as nat),
        ));
        lemma_digits_of_shape((n / 10) as nat);
        if n < 100 {
            assert(digits_of((n / 10) as nat).len() == 1);
        } else {
            assert(n / 10 >= 10);
            assert(digits_of((n / 10) as nat) =~= digits_of((n / 100) as nat).push(
                crate::numfmt::digit_char(((n / 10) % 10) as nat),
            ));
            lemma_digits_of_shape((n / 100) as nat);
            assert(n / 100 < 10);
            assert(digits_of((n / 100) as nat).len() == 1);
        }
    }
}

/// The canonical episode name of season `season`, episode `episode` (both
/// below 1000) is read back as that season and episode by the episode-tag
/// parser, whatever the title and extension: what linking writes,
/// re-cataloguing recognises.
pub proof fn law_episode_name_parses_back(season: int, episode: int, title: Option<Seq<char>>, ext: Seq<char>)
    requires
        0 <= season < 1000,
        0 <= episode < 1000,
    ensures
        parse_season_episode_spec(episode_file_name_spec(season, episode, title, ext)) == Some(
            (season as i64, episode as i64),
        ),
{
    let a = int_str_pad2(season);
    let b = int_str_pad2(episode);
    lemma_pad2_shape(season);
    lemma_pad2_shape(episode);
    let head = seq!['S'] + a + seq!['E'] + b;
    let n = episode_file_name_spec(season, episode, title, ext);
    let tail = match title {
        Some(t) => seq!['.'] + crate::naming::sanitize_spec(t) + seq!['.'] + ext,
        None => seq!['.'] + ext,
    };
    assert(n =~= head + tail);
    assert(n[0] == 'S');
    assert forall|j: int| 1 <= j < 1 + a.len() implies is_digit(#[trigger] n[j]) by {
        assert(n[j] == a[j - 1]);
    }
    assert(n[1 + a.len() as int] == 'E');
    lemma_digit_run_exact(n, 1, a.len() as int);
    let es: int = 2 + a.len() as int;
    assert forall|j: int| es <= j < es + b.len() implies is_digit(#[trigger] n[j]) by {
        assert(n[j] == b[j - es]);
    }
    assert(n[es + b.len() as int] == '.');
    lemma_digit_run_exact(n, es, b.len() as int);
    assert(tag_at(n, 0));
    assert(first_tag(n) == Some(0int));
    assert(season_digits(n, 0) =~= a);
    assert(episode_start(n, 0) == es);
    assert(episode_len(n, 0) == b.len());
    assert(episode_digits(n, 0) =~= b);
}


/// A file that already carries the canonical name of its episode, in the
/// folder of its season, stays where it is when the series is
/// re-catalogued again (with or without renaming): re-cataloguing is
/// idempotent on the files it names.
pub proof fn law_recatalog_keeps_canonical_files(
    season_folder: Seq<char>,
    season: i64,
    episode: i64,
    episodes: Seq<TmdbEpisode>,
    ext: Seq<char>,
    rename: bool,
)
    requires
        0 <= season < 1000,
        0 <= episode < 1000,
        ext.len() > 0,
        forall|k: int| 0 <= k < ext.len() ==> ext[k] != '.' && ext[k] != '/',
    ensures
        ({
            let name = episode_file_name_spec(season as int, episode as int, tmdb_title(episodes, episode), ext);
            let path = join_spec(season_folder, name);
            &&& recatalog_dest_spec(path, season_folder, season, rename, episodes) == Some(path)
            &&& file_name_spec(path) == Some(name)
            &&& parse_season_episode_spec(name) == Some((season, episode))
        }),
{
    let t = tmdb_title(episodes, episode);
    let name = episode_file_name_spec(season as int, episode as int, t, ext);
    let path = join_spec(season_folder, name);
    let a = int_str_pad2(season as int);
    let b = int_str_pad2(episode as int);
    lemma_pad2_shape(season as int);
    lemma_pad2_shape(episode as int);
    let head = seq!['S'] + a + seq!['E'] + b;
    let x = match t {
        Some(tt) => head + seq!['.'] + crate::naming::sanitize_spec(tt),
        None => head,
    };
    assert(name =~= x + seq!['.'] + ext);
    assert forall|k: int| 0 <= k < head.len() implies head[k] != '/' && head[k] != '.' by {
        if 1 <= k < 1 + a.len() {
            assert(head[k] == a[k - 1]);
            assert(is_digit(a[k - 1]));
        } else if 2 + a.len() <= k {
            assert(head[k] == b[k - 2 - a.len()]);
            assert(is_digit(b[k - 2 - a.len()]));
        }
    }
    assert forall|k: int| 0 <= k < x.len() implies x[k] != '/' by {
        match t {
            Some(tt) => {
                crate::naming::lemma_sanitize_no_slash(tt);
                if k < head.len() {
                    assert(x[k] == head[k]);
                } else if k > head.len() {
                    assert(x[k] == crate::naming::sanitize_spec(tt)[k - head.len() - 1]);
                }
            },
            None => {},
        }
    }
    assert forall|k: int| 0 <= k < name.len() implies name[k] != '/' by {
        if k < x.len() {
            assert(name[k] == x[k]);
        } else if k > x.len() {
            assert(name[k] == ext[k - x.len() - 1]);
        }
    }
    assert(name[0] == 'S');
    crate::path::lemma_file_name_of_join(season_folder, name);
    law_episode_name_parses_back(season as int, episode as int, t, ext);
    // The extension of the canonical name is `ext`.
    crate::path::lemma_last_index_of_append(x + seq!['.'], ext, '.');
    assert(x + seq!['.'] + ext =~= (x + seq!['.']) + ext);
    assert((x + seq!['.']).last() == '.');
    assert(crate::path::last_index_of(x + seq!['.'], '.') == x.len());
    assert(x.len() >= 3);
    assert(crate::path::ext_of(name) == Some(ext)) by {
        assert(name.subrange(x.len() + 1int, name.len() as int) =~= ext);
    }
    assert(ext_or_mkv(path) == ext);
}

/// What linking a batch writes, re-cataloguing reads back: the season
/// folder for season `n`, named with a label that sanitizing leaves as
/// is, is read as season `n` when seasons are looked up by that label.
pub proof fn law_season_folder_parses_back(series_folder: Seq<char>, label: Seq<char>, n: i64)
    requires
        sanitize_spec(label) == label,
    ensures
        season_of_dir(join_spec(series_folder, season_folder_name_spec(label, n as int)), label) == Some(n),
{
    let digits = int_str(n as int);
    let name = season_folder_name_spec(label, n as int);
    let prefix = label.push(' ');
    lemma_parse_int_str(n);
    lemma_sanitize_no_slash(label);
    assert(name =~= prefix + digits);
    assert forall|k: int| 0 <= k < digits.len() implies digits[k] != '/' by {
        if n < 0 {
            let m = (-(n as int)) as nat;
            lemma_digits_of_shape(m);
            if k > 0 {
                assert(digits[k] == digits_of(m)[k - 1]);
            }
        } else {
            lemma_digits_of_shape(n as nat);
        }
    }
    assert forall|k: int| 0 <= k < name.len() implies name[k] != '/' by {
        if k < label.len() {
            assert(name[k] == sanitize_spec(label)[k]);
        } else if k > label.len() {
            assert(name[k] == digits[k - prefix.len()]);
        }
    }
    assert(!is_dot_segment(name)) by {
        if name.len() <= 2 {
            assert(name[label.len() as int] == ' ');
        }
    }
    lemma_file_name_of_join(series_folder, name);
    assert(prefix.is_prefix_of(name)) by {
        assert(name.subrange(0, prefix.len() as int) =~= prefix);
    }
    assert(name.subrange(prefix.len() as int, name.len() as int) =~= digits);
    assert(trim_start(digits) == digits);
    assert(trim_end(digits) == digits);
}

/// The episode number that the tag in the file name of `p` carries.
pub open spec fn tagged_episode(p: Seq<char>) -> Option<i64> {
    match file_name_spec(p) {
        Some(n) => match parse_season_episode_spec(n) {
            Some((_, e)) => Some(e),
            None => None,
        },
        None => None,
    }
}

/// Re-cataloguing twice is re-cataloguing once: the destination that a
/// re-catalogue gives a file is, when the series is re-catalogued again
/// with the same season, options and TMDB listing, planned to stay
/// exactly where it is (so the second run renames nothing), and its name
/// carries the same episode.
pub proof fn law_recatalog_idempotent(
    file_path: Seq<char>,
    season_folder: Seq<char>,
    season_no: i64,
    rename: bool,
    episodes: Seq<TmdbEpisode>,
)
    requires
        0 <= season_no < 1000,
        !(extension_spec(file_path) matches Some(e) && e.len() == 0),
    ensures
        recatalog_dest_spec(file_path, season_folder, season_no, rename, episodes) matches Some(d)
            ==> recatalog_dest_spec(d, season_folder, season_no, rename, episodes) == Some(d)
            && tagged_episode(d) == tagged_episode(file_path),
{
    if let Some(d) = recatalog_dest_spec(file_path, season_folder, season_no, rename, episodes) {
        let n = file_name_spec(file_path).unwrap();
        lemma_file_name_plain(file_path);
        crate::recatalog::lemma_parsed_numbers_small(n);
        let (_, ep) = parse_season_episode_spec(n).unwrap();
        if rename {
            let ext = ext_or_mkv(file_path);
            assert(ext.len() > 0 && forall|k: int| 0 <= k < ext.len() ==> ext[k] != '.' && ext[k] != '/') by {
                if extension_spec(file_path) is None {
                    assert(ext == default_ext());
                }
            }
            law_recatalog_keeps_canonical_files(season_folder, season_no, ep, episodes, ext, true);
        } else {
            lemma_file_name_of_join(season_folder, n);
        }
    }
}

// ---------------------------------------------------------------------------
// A whole season, passed over twice
//
// The files of a season folder are taken in turn. Each file's step and move
// are those of `plan_recatalog_file` and `recatalog_move`; whether the
// destination exists is read from the paths present at that moment, and a
// rename replaces the old path by the new one.

/// The file at `p` is renamed when `disk` holds the paths present.
pub open spec fn pass_renames(
    p: Seq<char>,
    disk: Set<Seq<char>>,
    folder: Seq<char>,
    season_no: i64,
    rename: bool,
    episodes: Seq<TmdbEpisode>,
) -> bool {
    match recatalog_dest_spec(p, folder, season_no, rename, episodes) {
        Some(d) => rename && !same_path_spec(d, p) && !disk.contains(d),
        None => false,
    }
}

/// The file at `p` is skipped because another file holds its destination.
pub open spec fn pass_blocked(
    p: Seq<char>,
    disk: Set<Seq<char>>,
    folder: Seq<char>,
    season_no: i64,
    rename: bool,
    episodes: Seq<TmdbEpisode>,
) -> bool {
    match recatalog_dest_spec(p, folder, season_no, rename, episodes) {
        Some(d) => rename && !same_path_spec(d, p) && disk.contains(d),
        None => false,
    }
}

/// The path recorded for the episode of the file at `p`; nothing when the
/// file is skipped (no episode tag, or blocked).
pub open spec fn pass_recorded(
    p: Seq<char>,
    disk: Set<Seq<char>>,
    folder: Seq<char>,
    season_no: i64,
    rename: bool,
    episodes: Seq<TmdbEpisode>,
) -> Option<Seq<char>> {
    match recatalog_dest_spec(p, folder, season_no, rename, episodes) {
        None => None,
        Some(d) => if !rename {
            Some(p)
        } else if same_path_spec(d, p) || !disk.contains(d) {
            Some(d)
        } else {
            None
        },
    }
}

/// Where the file at `p` is after its step.
pub open spec fn pass_after(
    p: Seq<char>,
    disk: Set<Seq<char>>,
    folder: Seq<char>,
    season_no: i64,
    rename: bool,
    episodes: Seq<TmdbEpisode>,
) -> Seq<char> {
    if pass_renames(p, disk, folder, season_no, rename, episodes) {
        recatalog_dest_spec(p, folder, season_no, rename, episodes).unwrap()
    } else {
        p
    }
}

/// The paths present after the files of `files` are taken in turn.
pub open spec fn pass_disk(
    files: Seq<Seq<char>>,
    disk: Set<Seq<char>>,
    folder: Seq<char>,
    season_no: i64,
    rename: bool,
    episodes: Seq<TmdbEpisode>,
) -> Set<Seq<char>>
    decreases files.len(),
{
    if files.len() == 0 {
        disk
    } else {
        let before = pass_disk(files.drop_last(), disk, folder, season_no, rename, episodes);
        let p = files.last();
        if pass_renames(p, before, folder, season_no, rename, episodes) {
            before.remove(p).insert(recatalog_dest_spec(p, folder, season_no, rename, episodes).unwrap())
        } else {
            before
        }
    }
}

/// A path that is its own destination, once present, stays present for
/// the rest of the pass: no step renames it away.
proof fn lemma_pass_keeps_fixed(
    files: Seq<Seq<char>>,
    disk: Set<Seq<char>>,
    folder: Seq<char>,
    season_no: i64,
    rename: bool,
    episodes: Seq<TmdbEpisode>,
    x: Seq<char>,
    t: int,
    n: int,
)
    requires
        0 <= t <= n <= files.len(),
        pass_disk(files.take(t), disk, folder, season_no, rename, episodes).contains(x),
        recatalog_dest_spec(x, folder, season_no, rename, episodes) == Some(x),
    ensures
        pass_disk(files.take(n), disk, folder, season_no, rename, episodes).contains(x),
    decreases n - t,
{
    if n > t {
        lemma_pass_keeps_fixed(files, disk, folder, season_no, rename, episodes, x, t, n - 1);
        assert(files.take(n).drop_last() =~= files.take(n - 1));
        assert(files.take(n).last() == files[n - 1]);
        let before = pass_disk(files.take(n - 1), disk, folder, season_no, rename, episodes);
        if pass_renames(files[n - 1], before, folder, season_no, rename, episodes) {
            if files[n - 1] == x {
                assert(same_path_spec(x, x));
            }
        }
    }
}

/// Re-cataloguing a season twice: after a first pass over its files, a
/// second pass over the same files, each where the first pass left it and
/// against the paths present then, renames nothing, skips exactly the
/// files the first pass skipped, and records every episode at the path the
/// first pass recorded, for the same episode; so it leaves every file where
/// it is. (With no
/// renames the second pass changes no path, so the order in which it takes
/// the files does not matter.)
pub proof fn law_recatalog_season_twice(
    files: Seq<Seq<char>>,
    disk: Set<Seq<char>>,
    folder: Seq<char>,
    season_no: i64,
    rename: bool,
    episodes: Seq<TmdbEpisode>,
)
    requires
        0 <= season_no < 1000,
        forall|i: int|
            0 <= i < files.len() ==> !(extension_spec(#[trigger] files[i]) matches Some(e) && e.len() == 0),
    ensures
        forall|i: int|
            0 <= i < files.len() ==> {
                let seen = pass_disk(files.take(i), disk, folder, season_no, rename, episodes);
                let end = pass_disk(files, disk, folder, season_no, rename, episodes);
                let q = pass_after(#[trigger] files[i], seen, folder, season_no, rename, episodes);
                &&& !pass_renames(q, end, folder, season_no, rename, episodes)
                &&& pass_after(q, end, folder, season_no, rename, episodes) == q
                &&& pass_blocked(q, end, folder, season_no, rename, episodes) == pass_blocked(
                    files[i],
                    seen,
                    folder,
                    season_no,
                    rename,
                    episodes,
                )
                &&& (recatalog_dest_spec(q, folder, season_no, rename, episodes) is None)
                    == (recatalog_dest_spec(files[i], folder, season_no, rename, episodes) is None)
                &&& pass_recorded(q, end, folder, season_no, rename, episodes) == pass_recorded(
                    files[i],
                    seen,
                    folder,
                    season_no,
                    rename,
                    episodes,
                )
                &&& tagged_episode(q) == tagged_episode(files[i])
            },
{
    assert forall|i: int| 0 <= i < files.len() implies {
        let seen = pass_disk(files.take(i), disk, folder, season_no, rename, episodes);
        let end = pass_disk(files, disk, folder, season_no, rename, episodes);
        let q = pass_after(#[trigger] files[i], seen, folder, season_no, rename, episodes);
        &&& !pass_renames(q, end, folder, season_no, rename, episodes)
        &&& pass_after(q, end, folder, season_no, rename, episodes) == q
        &&& pass_blocked(q, end, folder, season_no, rename, episodes) == pass_blocked(
            files[i],
            seen,
            folder,
            season_no,
            rename,
            episodes,
        )
        &&& (recatalog_dest_spec(q, folder, season_no, rename, episodes) is None)
            == (recatalog_dest_spec(files[i], folder, season_no, rename, episodes) is None)
        &&& pass_recorded(q, end, folder, season_no, rename, episodes) == pass_recorded(
            files[i],
            seen,
            folder,
            season_no,
            rename,
            episodes,
        )
        &&& tagged_episode(q) == tagged_episode(files[i])
    } by {
        let p = files[i];
        let seen = pass_disk(files.take(i), disk, folder, season_no, rename, episodes);
        let end = pass_disk(files, disk, folder, season_no, rename, episodes);
        assert(files.take(files.len() as int) =~= files);
        law_recatalog_idempotent(p, folder, season_no, rename, episodes);
        if let Some(d) = recatalog_dest_spec(p, folder, season_no, rename, episodes) {
            assert(same_path_spec(d, d));
            if pass_blocked(p, seen, folder, season_no, rename, episodes) {
                assert(files.take(i + 1).drop_last() =~= files.take(i));
                assert(files.take(i + 1).last() == p);
                lemma_pass_keeps_fixed(files, disk, folder, season_no, rename, episodes, d, i + 1, files.len() as int);
            }
        }
    }
}

} // verus!
