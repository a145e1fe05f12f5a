use sorta::link::{genre_folder_move, label_move, root_label_key};
use sorta::error::AppError;
use sorta::link::{
    check_genre_ids_known, check_genre_ids_nonempty, default_true, folder_link_target, is_folder_link,
    kind_label_setting, plan_inside_renames, plan_rename, primary_changed, relabel_season_folder,
    reorder_destination, unlink_target, untag_name,
};
use sorta::media::MediaType;

#[test]
fn folder_links() {
    assert!(is_folder_link("", true));
    assert!(is_folder_link("ep.mkv", false));
    assert!(!is_folder_link("movie.mkv", true));
    let (parent, target) = folder_link_target("/hd", "Series", None, "Lupin", 96677);
    assert_eq!(parent, "/hd/Series");
    assert_eq!(target, "/hd/Series/Lupin [tmdb-96677]");
    let (parent, _) = folder_link_target("/hd", "Movies", Some("Ação"), "X", 1);
    assert_eq!(parent, "/hd/Movies/Ação");
    assert_eq!(kind_label_setting(MediaType::Movie), ("movies_folder_label", "Movies"));
    assert_eq!(kind_label_setting(MediaType::Tv), ("series_folder_label", "Series"));
}

#[test]
fn rename_plans() {
    let p = plan_rename("/hd", "Movies", MediaType::Movie, Some("Drama"), "Movies/Drama/Old [tmdb-5]", "New: Title", 5);
    assert_eq!(p.old_folder, "/hd/Movies/Drama/Old [tmdb-5]");
    assert_eq!(p.new_folder, "/hd/Movies/Drama/New Title [tmdb-5]");
    assert_eq!(p.new_folder_name, "New Title [tmdb-5]");
    let p = plan_rename("/hd", "Series", MediaType::Tv, Some("Drama"), "Series/Old [tmdb-5]", "New", 5);
    assert_eq!(p.new_folder, "/hd/Series/New [tmdb-5]");
}

#[test]
fn inside_renames() {
    let names: Vec<String> = ["notes.txt", "Old.mkv", "Old.en.srt", "Other.srt", "Old.nfo"]
        .iter()
        .map(|s| s.to_string())
        .collect();
    let r = plan_inside_renames("/f", &names, "New [tmdb-1]");
    assert_eq!(
        r,
        vec![
            ("/f/Old.mkv".to_string(), "/f/New [tmdb-1].mkv".to_string()),
            ("/f/Old.en.srt".to_string(), "/f/New [tmdb-1].en.srt".to_string()),
            ("/f/Old.nfo".to_string(), "/f/New [tmdb-1].nfo".to_string()),
        ]
    );
    assert!(plan_inside_renames("/f", &vec!["a.txt".to_string()], "N").is_empty());
}

#[test]
fn genre_order_checks() {
    assert!(matches!(check_genre_ids_nonempty(&[]), Err(AppError::Other(m)) if m == "genre_ids cannot be empty"));
    assert!(check_genre_ids_nonempty(&[1]).is_ok());
    assert!(check_genre_ids_known(&[28, 18], &[18, 28, 35], MediaType::Movie).is_ok());
    match check_genre_ids_known(&[28, 99, 98], &[28], MediaType::Tv) {
        Err(AppError::NotFound(m)) => assert_eq!(m, "genre 99 not known for Tv"),
        other => panic!("unexpected {other:?}"),
    }
    assert_eq!(
        reorder_destination("/hd", "Movies", Some("Ação"), "Movies/Drama/X [tmdb-1]"),
        "/hd/Movies/Ação/X [tmdb-1]"
    );
    assert_eq!(reorder_destination("/hd", "Movies", None, "Movies/Drama/X [tmdb-1]"), "/hd/Movies/X [tmdb-1]");
    assert!(primary_changed(Some("Drama"), Some("Ação")));
    assert!(!primary_changed(Some("Drama"), Some("Drama")));
    assert!(primary_changed(None, Some("Drama")));
    assert!(!primary_changed(None, None));
}

#[test]
fn unlink_targets() {
    assert!(default_true());
    let t = unlink_target("/hd/Movies/Drama/Inception [tmdb-27205]").unwrap().unwrap();
    assert_eq!(t.basename, "Inception [tmdb-27205]");
    assert_eq!(t.bare_title, "Inception");
    assert_eq!(t.dest, "/hd/Movies/Drama/Inception");
    assert_eq!(t.fallback, "/hd/Movies/Drama/Inception (unlinked)");
    assert!(unlink_target("/hd/Movies/Drama/Plain").unwrap().is_none());
    assert!(matches!(unlink_target("/"), Err(AppError::Other(m)) if m == "folder has no basename"));
}

#[test]
fn untag_names() {
    assert_eq!(untag_name("X [tmdb-1].mkv", "X [tmdb-1]", "X").as_deref(), Some("X.mkv"));
    assert_eq!(untag_name("X [tmdb-1].en.srt", "X [tmdb-1]", "X").as_deref(), Some("X.en.srt"));
    assert_eq!(untag_name("cover.jpg", "X [tmdb-1]", "X"), None);
    assert_eq!(untag_name("other.mkv", "X [tmdb-1]", "X"), None);
}

#[test]
fn season_relabel_and_back() {
    let renamed = relabel_season_folder("Season 3", "Season", "Temporada").unwrap();
    assert_eq!(renamed, "Temporada 3");
    assert_eq!(relabel_season_folder(&renamed, "Temporada", "Season").as_deref(), Some("Season 3"));
    assert_eq!(relabel_season_folder("Specials", "Season", "Temporada"), None);
}

#[test]
fn label_changes_move_folders() {
    assert_eq!(root_label_key("movie").unwrap(), ("movies_folder_label", "Movies"));
    assert_eq!(root_label_key("tv").unwrap(), ("series_folder_label", "Series"));
    assert!(matches!(root_label_key("music"), Err(AppError::Other(m)) if m == "unknown kind: music"));
    assert_eq!(label_move("/hd", "Movies", "Movies"), None);
    assert_eq!(
        label_move("/hd", "Movies", "Filmes:"),
        Some(("/hd/Movies".to_string(), "/hd/Filmes".to_string()))
    );
    assert_eq!(genre_folder_move("/hd", "Movies", "Action", "Action"), None);
    assert_eq!(
        genre_folder_move("/hd", "Filmes", "Action", "Ação"),
        Some(("/hd/Filmes/Action".to_string(), "/hd/Filmes/Ação".to_string()))
    );
}
