use sorta::media::MediaType;
use sorta::tmdb::{
    endpoint_url, episode_by_number, normalise_search_results, poster_url, still_url, RawSearchResult, SearchResult,
    TmdbEndpoint, TmdbEpisode, TvDetails,
};

#[test]
fn poster_url_handles_leading_slash() {
    assert_eq!(poster_url("/abc.jpg", "w500"), "https://image.tmdb.org/t/p/w500/abc.jpg");
    assert_eq!(poster_url("abc.jpg", "w500"), "https://image.tmdb.org/t/p/w500/abc.jpg");
    assert_eq!(still_url("//s.jpg", "w300"), "https://image.tmdb.org/t/p/w300/s.jpg");
}

fn raw(kind: &str, id: i64) -> RawSearchResult {
    RawSearchResult {
        media_type: kind.to_string(),
        id,
        title: None,
        name: None,
        original_title: None,
        original_name: None,
        release_date: None,
        first_air_date: None,
        poster_path: None,
        genre_ids: vec![],
    }
}

#[test]
fn search_results_drop_people_and_normalise() {
    let mut m = raw("movie", 27205);
    m.title = Some("Inception".to_string());
    m.release_date = Some("2010-07-15".to_string());
    m.genre_ids = vec![28, 878];
    let mut t = raw("tv", 1399);
    t.original_name = Some("Game of Thrones".to_string());
    t.first_air_date = Some("2011".to_string());
    let p = raw("person", 1);
    let out = normalise_search_results(vec![m, p, t]);
    assert_eq!(out.len(), 2);
    assert_eq!(out[0].media_type, MediaType::Movie);
    assert_eq!(out[0].title, "Inception");
    assert_eq!(out[0].year.as_deref(), Some("2010"));
    assert_eq!(out[0].genre_ids, vec![28, 878]);
    assert_eq!(out[1].media_type, MediaType::Tv);
    assert_eq!(out[1].title, "Game of Thrones");
    assert_eq!(out[1].year.as_deref(), Some("2011"));
}

#[test]
fn untitled_fallback() {
    let s = SearchResult::from_raw(raw("movie", 42)).unwrap();
    assert_eq!(s.title, "Untitled #42");
    assert!(s.year.is_none());
    assert!(SearchResult::from_raw(raw("person", 42)).is_none());
}

#[test]
fn primary_runtime_is_first() {
    let mut d = TvDetails {
        id: 1,
        name: "x".to_string(),
        original_name: None,
        first_air_date: None,
        episode_run_time: vec![42, 50],
        poster_path: None,
        genres: vec![],
    };
    assert_eq!(d.primary_runtime(), Some(42));
    d.episode_run_time.clear();
    assert_eq!(d.primary_runtime(), None);
}

fn ep(n: i64, name: &str) -> TmdbEpisode {
    TmdbEpisode {
        episode_number: n,
        season_number: 1,
        name: Some(name.to_string()),
        overview: None,
        air_date: None,
        runtime: None,
        still_path: None,
    }
}

#[test]
fn episode_lookup_keeps_the_last_of_a_number() {
    let eps = vec![ep(1, "a"), ep(2, "b"), ep(1, "c")];
    assert_eq!(episode_by_number(&eps, 1), Some(2));
    assert_eq!(episode_by_number(&eps, 2), Some(1));
    assert_eq!(episode_by_number(&eps, 3), None);
}

#[test]
fn endpoint_urls_follow_the_v3_scheme() {
    let base = "https://api.themoviedb.org/3";
    assert_eq!(endpoint_url(base, TmdbEndpoint::SearchMulti), "https://api.themoviedb.org/3/search/multi");
    assert_eq!(endpoint_url(base, TmdbEndpoint::Movie(27205)), "https://api.themoviedb.org/3/movie/27205");
    assert_eq!(endpoint_url(base, TmdbEndpoint::Tv(1399)), "https://api.themoviedb.org/3/tv/1399");
    assert_eq!(
        endpoint_url(base, TmdbEndpoint::Season { tv_id: 1399, season: 0 }),
        "https://api.themoviedb.org/3/tv/1399/season/0"
    );
    assert_eq!(endpoint_url("http://x", TmdbEndpoint::Genres(MediaType::Movie)), "http://x/genre/movie/list");
    assert_eq!(endpoint_url("http://x", TmdbEndpoint::Genres(MediaType::Tv)), "http://x/genre/tv/list");
}
