//! TMDB records and the rules that normalise them.

use vstd::prelude::*;

use crate::media::{parse_media_type, MediaType};
use crate::numfmt::{fmt_i64, int_str};
use crate::text::{chars_of, extend_chars, str_eq, string_of};

verus! {

/// A TMDB genre.
#[derive(Debug, Clone)]
pub struct Genre {
    pub id: i64,
    pub name: String,
}

/// Raw element from `/search/multi` (mixed shape).
#[derive(Debug, Clone)]
pub struct RawSearchResult {
    pub media_type: String,
    pub id: i64,
    pub title: Option<String>,
    pub name: Option<String>,
    pub original_title: Option<String>,
    pub original_name: Option<String>,
    pub release_date: Option<String>,
    pub first_air_date: Option<String>,
    pub poster_path: Option<String>,
    pub genre_ids: Vec<i64>,
}

/// Normalized search result the rest of the app consumes.
#[derive(Debug, Clone)]
pub struct SearchResult {
    pub media_type: MediaType,
    pub id: i64,
    pub title: String,
    pub original_title: Option<String>,
    pub year: Option<String>,
    pub poster_path: Option<String>,
    pub genre_ids: Vec<i64>,
}

pub open spec fn opt_view(o: Option<String>) -> Option<Seq<char>> {
    match o {
        Some(s) => Some(s@),
        None => None,
    }
}

/// `a.or(b)`.
pub open spec fn or_else(a: Option<Seq<char>>, b: Option<Seq<char>>) -> Option<Seq<char>> {
    match a {
        Some(x) => Some(x),
        None => b,
    }
}

/// `"Untitled #<id>"`.
pub open spec fn untitled(id: int) -> Seq<char> {
    seq!['U', 'n', 't', 'i', 't', 'l', 'e', 'd', ' ', '#'] + int_str(id)
}

/// Position of the first `-` in `s`, or its length.
pub open spec fn first_dash(s: Seq<char>) -> int
    decreases s.len(),
{
    if s.len() == 0 {
        0
    } else if s[0] == '-' {
        0
    } else {
        1 + first_dash(s.drop_first())
    }
}

/// The year of a `YYYY-MM-DD` date: everything before the first `-`.
pub open spec fn year_of(d: Seq<char>) -> Seq<char> {
    d.subrange(0, first_dash(d))
}

/// The title a raw result is shown under, before the fallback.
pub open spec fn raw_title(r: RawSearchResult, t: MediaType) -> Option<Seq<char>> {
    match t {
        MediaType::Movie => or_else(opt_view(r.title), opt_view(r.original_title)),
        MediaType::Tv => or_else(opt_view(r.name), opt_view(r.original_name)),
    }
}

pub open spec fn raw_original(r: RawSearchResult, t: MediaType) -> Option<Seq<char>> {
    match t {
        MediaType::Movie => opt_view(r.original_title),
        MediaType::Tv => opt_view(r.original_name),
    }
}

pub open spec fn raw_date(r: RawSearchResult, t: MediaType) -> Option<Seq<char>> {
    match t {
        MediaType::Movie => opt_view(r.release_date),
        MediaType::Tv => opt_view(r.first_air_date),
    }
}

/// `r` normalised into a [`SearchResult`] of type `t`.
pub open spec fn normalised(s: SearchResult, r: RawSearchResult, t: MediaType) -> bool {
    &&& s.media_type == t
    &&& s.id == r.id
    &&& s.title@ == (match raw_title(r, t) {
        Some(x) => x,
        None => untitled(r.id as int),
    })
    &&& opt_view(s.original_title) == raw_original(r, t)
    &&& opt_view(s.year) == (match raw_date(r, t) {
        Some(d) => Some(year_of(d)),
        None => None,
    })
    &&& s.poster_path == r.poster_path
    &&& s.genre_ids@ == r.genre_ids@
}

fn first_or(a: Option<String>, b: Option<String>) -> (r: Option<String>)
    ensures
        opt_view(r) == or_else(opt_view(a), opt_view(b)),
{
    match a {
        Some(x) => Some(x),
        None => b,
    }
}

fn year_exec(d: &String) -> (r: String)
    ensures
        r@ == year_of(d@),
{
    let v = chars_of(d.as_str());
    let mut i: usize = 0;
    assert(v@.subrange(0, v.len() as int) =~= v@);
    while i < v.len() && v[i] != '-'
        invariant
            i <= v.len(),
            first_dash(v@) == i + first_dash(v@.subrange(i as int, v.len() as int)),
        decreases v.len() - i,
    {
        proof {
            assert(v@.subrange(i as int, v.len() as int).drop_first() =~= v@.subrange(
                i + 1,
                v.len() as int,
            ));
        }
        i = i + 1;
    }
    proof {
        assert(first_dash(v@.subrange(i as int, v.len() as int)) == 0);
    }
    let mut out: Vec<char> = Vec::new();
    let mut k: usize = 0;
    while k < i
        invariant
            k <= i <= v.len(),
            out@ == v@.subrange(0, k as int),
        decreases i - k,
    {
        out.push(v[k]);
        k = k + 1;
    }
    string_of(&out)
}

impl SearchResult {
    /// Normalise a raw `/search/multi` element; `None` for anything but a
    /// movie or a TV series (people, unknown kinds).
    pub fn from_raw(r: RawSearchResult) -> (res: Option<SearchResult>)
        ensures
            match res {
                Some(s) => parse_media_type(r.media_type@) == Some(s.media_type) && normalised(
                    s,
                    r,
                    s.media_type,
                ),
                None => parse_media_type(r.media_type@) is None,
            },
    {
        let media_type = match MediaType::parse(r.media_type.as_str()) {
            Some(t) => t,
            None => return None,
        };
        let ghost r0 = r;
        let title = match media_type {
            MediaType::Movie => first_or(r.title, r.original_title.clone()),
            MediaType::Tv => first_or(r.name, r.original_name.clone()),
        };
        let original_title = match media_type {
            MediaType::Movie => r.original_title,
            MediaType::Tv => r.original_name,
        };
        let date = match media_type {
            MediaType::Movie => r.release_date,
            MediaType::Tv => r.first_air_date,
        };
        let title = match title {
            Some(t) => t,
            None => {
                proof {
                    reveal_strlit("Untitled #");
                }
                let mut v = chars_of("Untitled #");
                let d = fmt_i64(r.id);
                crate::text::extend_chars(&mut v, &d);
                proof {
                    assert(v@ =~= untitled(r0.id as int));
                }
                string_of(&v)
            },
        };
        let year = match &date {
            Some(d) => Some(year_exec(d)),
            None => None,
        };
        Some(SearchResult {
            media_type,
            id: r.id,
            title,
            original_title,
            year,
            poster_path: r.poster_path,
            genre_ids: r.genre_ids,
        })
    }
}


/// `/movie/{id}` details.
#[derive(Debug, Clone)]
pub struct MovieDetails {
    pub id: i64,
    pub title: String,
    pub original_title: Option<String>,
    pub release_date: Option<String>,
    pub runtime: Option<i64>,
    pub poster_path: Option<String>,
    pub genres: Vec<Genre>,
}

/// `/tv/{id}` details.
#[derive(Debug, Clone)]
pub struct TvDetails {
    pub id: i64,
    pub name: String,
    pub original_name: Option<String>,
    pub first_air_date: Option<String>,
    pub episode_run_time: Vec<i64>,
    pub poster_path: Option<String>,
    pub genres: Vec<Genre>,
}

impl TvDetails {
    /// First episode runtime as a single value, useful for the UI.
    pub fn primary_runtime(&self) -> (r: Option<i64>)
        ensures
            r == (if self.episode_run_time@.len() > 0 {
                Some(self.episode_run_time@[0])
            } else {
                None::<i64>
            }),
    {
        if self.episode_run_time.len() > 0 {
            Some(self.episode_run_time[0])
        } else {
            None
        }
    }
}

/// One element of `/tv/{id}/season/{n}` -> `episodes`.
#[derive(Debug, Clone)]
pub struct TmdbEpisode {
    pub episode_number: i64,
    pub season_number: i64,
    pub name: Option<String>,
    pub overview: Option<String>,
    pub air_date: Option<String>,
    /// In minutes; TMDB returns 0 for unaired episodes.
    pub runtime: Option<i64>,
    /// Relative path, e.g. `/abc.jpg`.
    pub still_path: Option<String>,
}

/// `/tv/{id}/season/{n}`.
#[derive(Debug, Clone)]
pub struct SeasonDetails {
    pub season_number: i64,
    pub episodes: Vec<TmdbEpisode>,
}

/// The normalised results of a `/search/multi` page: people and unknown
/// kinds dropped, the rest normalised, in page order.
pub open spec fn search_kept(raw: Seq<RawSearchResult>) -> Seq<RawSearchResult>
    decreases raw.len(),
{
    if raw.len() == 0 {
        seq![]
    } else if parse_media_type(raw.last().media_type@) is Some {
        search_kept(raw.drop_last()).push(raw.last())
    } else {
        search_kept(raw.drop_last())
    }
}

/// `filter_map(SearchResult::from_raw)` over a results page.
pub fn normalise_search_results(raw: Vec<RawSearchResult>) -> (r: Vec<SearchResult>)
    ensures
        r.len() == search_kept(raw@).len(),
        forall|i: int|
            0 <= i < r.len() ==> {
                let k = #[trigger] search_kept(raw@)[i];
                parse_media_type(k.media_type@) == Some(r@[i].media_type) && normalised(
                    r@[i],
                    k,
                    r@[i].media_type,
                )
            },
{
    let ghost orig = raw@;
    let mut out: Vec<SearchResult> = Vec::new();
    let mut src = raw;
    let mut i: usize = 0;
    let n = src.len();
    while src.len() > 0
        invariant
            i + src.len() == n,
            n == orig.len(),
            src@ == orig.subrange(i as int, n as int),
            out.len() == search_kept(orig.take(i as int)).len(),
            forall|j: int|
                0 <= j < out.len() ==> {
                    let k = #[trigger] search_kept(orig.take(i as int))[j];
                    parse_media_type(k.media_type@) == Some(out@[j].media_type) && normalised(
                        out@[j],
                        k,
                        out@[j].media_type,
                    )
                },
        decreases src.len(),
    {
        let x = src.remove(0);
        proof {
            assert(x == orig[i as int]);
            assert(orig.take(i + 1).drop_last() =~= orig.take(i as int));
            assert(orig.take(i + 1).last() == x);
            assert(src@ =~= orig.subrange(i + 1, n as int));
        }
        let ghost prev = out@;
        let ghost xr = x;
        match SearchResult::from_raw(x) {
            Some(sr) => {
                out.push(sr);
                proof {
                    assert forall|j: int| 0 <= j < out.len() implies {
                        let k = #[trigger] search_kept(orig.take(i + 1))[j];
                        parse_media_type(k.media_type@) == Some(out@[j].media_type) && normalised(
                            out@[j],
                            k,
                            out@[j].media_type,
                        )
                    } by {
                        if j < prev.len() {
                            assert(search_kept(orig.take(i + 1))[j] == search_kept(orig.take(i as int))[j]);
                            assert(out@[j] == prev[j]);
                        } else {
                            assert(search_kept(orig.take(i + 1))[j] == xr);
                        }
                    }
                }
            },
            None => {},
        }
        i = i + 1;
    }
    proof {
        assert(orig.take(n as int) =~= orig);
    }
    out
}

/// `s` without its leading `/` characters.
pub open spec fn trim_leading_slashes(s: Seq<char>) -> Seq<char>
    decreases s.len(),
{
    if s.len() > 0 && s[0] == '/' {
        trim_leading_slashes(s.drop_first())
    } else {
        s
    }
}

/// TMDB's image CDN prefix.
pub open spec fn img_base() -> Seq<char> {
    seq![
        'h', 't', 't', 'p', 's', ':', '/', '/', 'i', 'm', 'a', 'g', 'e', '.', 't', 'm', 'd', 'b',
        '.', 'o', 'r', 'g', '/', 't', '/', 'p',
    ]
}

/// `<image base>/<size>/<path without leading slashes>`.
pub open spec fn image_url_spec(path: Seq<char>, size: Seq<char>) -> Seq<char> {
    img_base() + seq!['/'] + size + seq!['/'] + trim_leading_slashes(path)
}

fn image_url(path: &str, size: &str) -> (r: String)
    ensures
        r@ == image_url_spec(path@, size@),
{
    proof {
        reveal_strlit("https://image.tmdb.org/t/p");
        assert("https://image.tmdb.org/t/p"@ =~= img_base());
    }
    let mut v = chars_of("https://image.tmdb.org/t/p");
    v.push('/');
    crate::text::extend_chars(&mut v, &chars_of(size));
    v.push('/');
    let p = chars_of(path);
    let mut i: usize = 0;
    assert(p@.subrange(0, p.len() as int) =~= p@);
    while i < p.len() && p[i] == '/'
        invariant
            i <= p.len(),
            trim_leading_slashes(p@) == trim_leading_slashes(p@.subrange(i as int, p.len() as int)),
        decreases p.len() - i,
    {
        proof {
            assert(p@.subrange(i as int, p.len() as int).drop_first() =~= p@.subrange(
                i + 1,
                p.len() as int,
            ));
        }
        i = i + 1;
    }
    let rest = crate::text::slice_vec(&p, i, p.len());
    crate::text::extend_chars(&mut v, &rest);
    string_of(&v)
}

/// Build a poster URL from a TMDB poster_path. `size` is e.g. `"w500"`.
pub fn poster_url(poster_path: &str, size: &str) -> (r: String)
    ensures
        r@ == image_url_spec(poster_path@, size@),
{
    image_url(poster_path, size)
}

/// Build an episode still URL from a TMDB still_path. `size` is e.g. `"w300"`.
pub fn still_url(still_path: &str, size: &str) -> (r: String)
    ensures
        r@ == image_url_spec(still_path@, size@),
{
    image_url(still_path, size)
}

/// Index of the last episode numbered `n` (a map keyed by episode number,
/// filled in order, keeps the last one).
pub open spec fn episode_index(eps: Seq<TmdbEpisode>, n: i64) -> Option<int>
    decreases eps.len(),
{
    if eps.len() == 0 {
        None
    } else if eps.last().episode_number == n {
        Some(eps.len() - 1)
    } else {
        episode_index(eps.drop_last(), n)
    }
}

/// The TMDB episode numbered `n` in a season listing, if any.
pub fn episode_by_number(eps: &Vec<TmdbEpisode>, n: i64) -> (r: Option<usize>)
    ensures
        match r {
            Some(i) => episode_index(eps@, n) == Some(i as int) && i < eps.len(),
            None => episode_index(eps@, n) is None,
        },
{
    let mut i: usize = eps.len();
    assert(eps@.take(eps.len() as int) =~= eps@);
    while i > 0
        invariant
            i <= eps.len(),
            episode_index(eps@, n) == episode_index(eps@.take(i as int), n),
        decreases i,
    {
        proof {
            assert(eps@.take(i as int).drop_last() =~= eps@.take(i - 1));
        }
        if eps[i - 1].episode_number == n {
            return Some(i - 1);
        }
        i = i - 1;
    }
    None
}

/// A TMDB v3 endpoint the client reads.
#[derive(Debug, Clone, Copy)]
pub enum TmdbEndpoint {
    /// `/search/multi`: movies, series and people matching a query.
    SearchMulti,
    /// `/movie/{id}`.
    Movie(i64),
    /// `/tv/{id}`.
    Tv(i64),
    /// `/tv/{id}/season/{n}`.
    Season { tv_id: i64, season: i64 },
    /// `/genre/{movie|tv}/list`.
    Genres(MediaType),
}

/// The path of an endpoint under the API's base URL.
pub open spec fn endpoint_path(e: TmdbEndpoint) -> Seq<char> {
    match e {
        TmdbEndpoint::SearchMulti => "/search/multi"@,
        TmdbEndpoint::Movie(id) => "/movie/"@ + int_str(id as int),
        TmdbEndpoint::Tv(id) => "/tv/"@ + int_str(id as int),
        TmdbEndpoint::Season { tv_id, season } => "/tv/"@ + int_str(tv_id as int) + "/season/"@ + int_str(
            season as int,
        ),
        TmdbEndpoint::Genres(t) => "/genre/"@ + crate::media::media_type_str(t) + "/list"@,
    }
}

/// The URL of an endpoint: the base URL followed by its path.
pub fn endpoint_url(base_url: &str, e: TmdbEndpoint) -> (r: String)
    ensures
        r@ == base_url@ + endpoint_path(e),
{
    let mut v = chars_of(base_url);
    match e {
        TmdbEndpoint::SearchMulti => {
            extend_chars(&mut v, &chars_of("/search/multi"));
        },
        TmdbEndpoint::Movie(id) => {
            extend_chars(&mut v, &chars_of("/movie/"));
            extend_chars(&mut v, &fmt_i64(id));
        },
        TmdbEndpoint::Tv(id) => {
            extend_chars(&mut v, &chars_of("/tv/"));
            extend_chars(&mut v, &fmt_i64(id));
        },
        TmdbEndpoint::Season { tv_id, season } => {
            extend_chars(&mut v, &chars_of("/tv/"));
            extend_chars(&mut v, &fmt_i64(tv_id));
            extend_chars(&mut v, &chars_of("/season/"));
            extend_chars(&mut v, &fmt_i64(season));
        },
        TmdbEndpoint::Genres(t) => {
            extend_chars(&mut v, &chars_of("/genre/"));
            extend_chars(&mut v, &chars_of(t.as_db_str()));
            extend_chars(&mut v, &chars_of("/list"));
        },
    }
    let r = string_of(&v);
    proof {
        assert(r@ =~= base_url@ + endpoint_path(e));
    }
    r
}

proof fn lemma_first_dash(d: Seq<char>)
    ensures
        0 <= first_dash(d) <= d.len(),
        forall|k: int| 0 <= k < first_dash(d) ==> #[trigger] d[k] != '-',
        first_dash(d) < d.len() ==> d[first_dash(d)] == '-',
    decreases d.len(),
{
    if d.len() > 0 && d[0] != '-' {
        lemma_first_dash(d.drop_first());
        assert forall|k: int| 0 <= k < first_dash(d) implies #[trigger] d[k] != '-' by {
            if k > 0 {
                assert(d[k] == d.drop_first()[k - 1]);
            }
        }
    }
}

/// Which title a search result is shown under: a movie's localized
/// `title` whenever it has one, its `original_title` only when it has
/// none, and `Untitled #<id>` when it has neither; a series likewise with
/// `name` and `original_name`. The original title, id, poster and genres
/// are carried through as they are, and the year is the part of the release
/// date (a series: first air date) before its first `-`.
pub proof fn law_search_title(s: SearchResult, r: RawSearchResult, t: MediaType)
    requires
        normalised(s, r, t),
    ensures
        t == MediaType::Movie ==> match r.title {
            Some(x) => s.title@ == x@,
            None => match r.original_title {
                Some(o) => s.title@ == o@,
                None => s.title@ == "Untitled #"@ + int_str(r.id as int),
            },
        },
        t == MediaType::Movie ==> opt_view(s.original_title) == opt_view(r.original_title),
        t == MediaType::Tv ==> match r.name {
            Some(x) => s.title@ == x@,
            None => match r.original_name {
                Some(o) => s.title@ == o@,
                None => s.title@ == "Untitled #"@ + int_str(r.id as int),
            },
        },
        t == MediaType::Tv ==> opt_view(s.original_title) == opt_view(r.original_name),
        s.id == r.id,
        s.media_type == t,
        s.poster_path == r.poster_path,
        s.genre_ids@ == r.genre_ids@,
        ({
            let date = if t == MediaType::Movie {
                r.release_date
            } else {
                r.first_air_date
            };
            match date {
                Some(d) => s.year matches Some(y) && y@.len() <= d@.len() && y@ == d@.subrange(0, y@.len() as int)
                    && (forall|k: int| 0 <= k < y@.len() ==> #[trigger] y@[k] != '-') && (y@.len() == d@.len()
                    || d@[y@.len() as int] == '-'),
                None => s.year is None,
            }
        }),
{
    reveal_strlit("Untitled #");
    assert(untitled(r.id as int) =~= "Untitled #"@ + int_str(r.id as int));
    let date = if t == MediaType::Movie {
        r.release_date
    } else {
        r.first_air_date
    };
    if let Some(d) = date {
        lemma_first_dash(d@);
        let y = s.year.unwrap();
        assert(y@ == year_of(d@));
        assert forall|k: int| 0 <= k < y@.len() implies #[trigger] y@[k] != '-' by {
            assert(y@[k] == d@[k]);
        }
    }
}

} // verus!
