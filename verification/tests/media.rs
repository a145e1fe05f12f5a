use sorta::media::{media_folder, GenreRow, MediaRow, MediaType};

#[test]
fn media_type_round_trips() {
    for t in [MediaType::Movie, MediaType::Tv] {
        assert_eq!(MediaType::parse(t.as_db_str()), Some(t));
    }
    assert_eq!(MediaType::Movie.as_db_str(), "movie");
    assert_eq!(MediaType::Tv.as_db_str(), "tv");
    assert_eq!(MediaType::parse("person"), None);
    assert_eq!(MediaType::parse("Movie"), None);
}

pub fn row(title: &str, folder: &str) -> MediaRow {
    MediaRow {
        id: 1,
        tmdb_id: 2,
        media_type: "movie".to_string(),
        title: title.to_string(),
        original_title: None,
        runtime_minutes: None,
        poster_path: None,
        poster_url: None,
        folder_path: folder.to_string(),
        catalogued_at: String::new(),
        is_new: false,
        drive_root: None,
    }
}

#[test]
fn media_folder_joins_root() {
    assert_eq!(media_folder("/hd", &row("X", "Movies/X [tmdb-2]")), "/hd/Movies/X [tmdb-2]");
    assert_eq!(media_folder("/hd/", &row("X", "Movies")), "/hd/Movies");
}

#[test]
fn genre_display_prefers_translation() {
    let mut g = GenreRow { id: 28, media_type: "movie".to_string(), canonical_name: "Action".to_string(), translated_name: None };
    assert_eq!(g.display_name(), "Action");
    g.translated_name = Some("Ação".to_string());
    assert_eq!(g.display_name(), "Ação");
}
