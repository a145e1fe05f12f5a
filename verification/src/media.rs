//! Media, genre and episode rows of a drive's catalogue.

use vstd::prelude::*;

use crate::path::{join, join_spec};
use crate::text::{chars_of, str_eq, string_of};

verus! {

/// Kind of a catalogued work.
#[derive(Debug, Clone, Copy, PartialEq, Eq, Structural)]
pub enum MediaType {
    Movie,
    Tv,
}

/// The database spelling of each media type.
pub open spec fn media_type_str(t: MediaType) -> Seq<char> {
    match t {
        MediaType::Movie => seq!['m', 'o', 'v', 'i', 'e'],
        MediaType::Tv => seq!['t', 'v'],
    }
}

impl MediaType {
    /// `"movie"` or `"tv"`.
    pub fn as_db_str(self) -> (r: &'static str)
        ensures
            r@ == media_type_str(self),
    {
        match self {
            MediaType::Movie => {
                proof {
                    reveal_strlit("movie");
                    assert("movie"@ =~= media_type_str(MediaType::Movie));
                }
                "movie"
            },
            MediaType::Tv => {
                proof {
                    reveal_strlit("tv");
                    assert("tv"@ =~= media_type_str(MediaType::Tv));
                }
                "tv"
            },
        }
    }

    /// The media type spelled `s` in the database, if any.
    pub fn parse(s: &str) -> (r: Option<MediaType>)
        ensures
            r == parse_media_type(s@),
    {
        proof {
            reveal_strlit("movie");
            reveal_strlit("tv");
            assert("movie"@ =~= media_type_str(MediaType::Movie));
            assert("tv"@ =~= media_type_str(MediaType::Tv));
        }
        if str_eq(s, "movie") {
            Some(MediaType::Movie)
        } else if str_eq(s, "tv") {
            Some(MediaType::Tv)
        } else {
            None
        }
    }
}

/// The media type that the database spelling `s` names.
pub open spec fn parse_media_type(s: Seq<char>) -> Option<MediaType> {
    if s == media_type_str(MediaType::Movie) {
        Some(MediaType::Movie)
    } else if s == media_type_str(MediaType::Tv) {
        Some(MediaType::Tv)
    } else {
        None
    }
}

/// Parsing the database spelling of a media type gives that type back,
/// and a parsed type is spelled as the text it was parsed from.
pub proof fn law_media_type_roundtrip(t: MediaType, s: Seq<char>)
    ensures
        parse_media_type(media_type_str(t)) == Some(t),
        parse_media_type(s) == Some(t) ==> media_type_str(t) == s,
{
    assert(media_type_str(MediaType::Movie).len() != media_type_str(MediaType::Tv).len());
}

/// The spellings: a movie is `movie`, a series is `tv`, and nothing else
/// names a media type (TMDB's `person` and the like are not kept).
pub proof fn law_media_type_spelling(s: Seq<char>)
    ensures
        parse_media_type(s) == Some(MediaType::Movie) <==> s == "movie"@,
        parse_media_type(s) == Some(MediaType::Tv) <==> s == "tv"@,
        parse_media_type(s) is None <==> (s != "movie"@ && s != "tv"@),
{
    reveal_strlit("movie");
    reveal_strlit("tv");
    assert("movie"@ =~= media_type_str(MediaType::Movie));
    assert("tv"@ =~= media_type_str(MediaType::Tv));
}

/// One catalogued work, as stored.
#[derive(Debug, Clone)]
pub struct MediaRow {
    pub id: i64,
    pub tmdb_id: i64,
    pub media_type: String,
    pub title: String,
    pub original_title: Option<String>,
    pub runtime_minutes: Option<i64>,
    pub poster_path: Option<String>,
    pub poster_url: Option<String>,
    /// Folder, relative to the drive root.
    pub folder_path: String,
    /// ISO 8601 UTC timestamp of the cataloguing.
    pub catalogued_at: String,
    pub is_new: bool,
    /// Drive the row was loaded from; not stored.
    pub drive_root: Option<String>,
}

/// The values of a new media row.
#[derive(Debug, Clone)]
pub struct NewMedia<'a> {
    pub tmdb_id: i64,
    pub media_type: MediaType,
    pub title: &'a str,
    pub original_title: Option<&'a str>,
    pub runtime_minutes: Option<i64>,
    pub poster_path: Option<&'a str>,
    pub poster_url: Option<&'a str>,
    pub folder_path: &'a str,
    pub is_new: bool,
}

/// The absolute folder of a row: the drive root joined with its relative
/// folder.
pub fn media_folder(hd_root: &str, row: &MediaRow) -> (r: String)
    ensures
        r@ == join_spec(hd_root@, row.folder_path@),
{
    string_of(&join(&chars_of(hd_root), &chars_of(row.folder_path.as_str())))
}

/// One genre of a media type, with the user's translation if any.
#[derive(Debug, Clone)]
pub struct GenreRow {
    pub id: i64,
    pub media_type: String,
    pub canonical_name: String,
    pub translated_name: Option<String>,
}

/// Display name of a genre: the translation when set, else the canonical
/// name.
pub open spec fn genre_display(g: GenreRow) -> Seq<char> {
    match g.translated_name {
        Some(t) => t@,
        None => g.canonical_name@,
    }
}

impl GenreRow {
    /// Display name: translated if set, else canonical.
    pub fn display_name(&self) -> (r: &str)
        ensures
            r@ == genre_display(*self),
    {
        match &self.translated_name {
            Some(t) => t.as_str(),
            None => self.canonical_name.as_str(),
        }
    }
}

/// One episode of a series, as stored.
#[derive(Debug, Clone)]
pub struct EpisodeRow {
    pub id: i64,
    pub media_id: i64,
    pub season_number: i64,
    pub episode_number: i64,
    pub title: Option<String>,
    pub overview: Option<String>,
    pub air_date: Option<String>,
    pub runtime_minutes: Option<i64>,
    /// Local cached still image, relative to the drive root.
    pub still_path: Option<String>,
    /// TMDB CDN fallback URL.
    pub still_url: Option<String>,
    pub file_path: Option<String>,
}

/// The values of an episode row to insert or refresh.
#[derive(Debug, Clone)]
pub struct NewEpisode<'a> {
    pub media_id: i64,
    pub season_number: i64,
    pub episode_number: i64,
    pub title: Option<&'a str>,
    pub overview: Option<&'a str>,
    pub air_date: Option<&'a str>,
    pub runtime_minutes: Option<i64>,
    pub still_path: Option<&'a str>,
    pub still_url: Option<&'a str>,
    pub file_path: Option<&'a str>,
}

} // verus!
