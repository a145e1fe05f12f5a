use sorta::error::AppError;
use sorta::library::{
    batch_drive, change_event, check_registered, drive_for_path, owning_drive, sort_by_title, tag_drive,
    target_drive, ScanResultDto,
};
use sorta::media::MediaRow;
use sorta::walker::{ScanReport, SkippedHit, UncataloguedHit, UncataloguedKind};

fn row(title: &str) -> MediaRow {
    MediaRow {
        id: 1,
        tmdb_id: 2,
        media_type: "movie".to_string(),
        title: title.to_string(),
        original_title: None,
        runtime_minutes: None,
        poster_path: None,
        poster_url: None,
        folder_path: "f".to_string(),
        catalogued_at: String::new(),
        is_new: false,
        drive_root: None,
    }
}

fn drives(v: &[&str]) -> Vec<String> {
    v.iter().map(|s| s.to_string()).collect()
}

#[test]
fn longest_drive_wins() {
    let d = drives(&["/mnt/movies", "/mnt/movies/sub", "/mnt/other"]);
    assert_eq!(drive_for_path(&d, "/mnt/movies/sub/X").as_deref(), Some("/mnt/movies/sub"));
    assert_eq!(drive_for_path(&d, "/mnt/movies/X").as_deref(), Some("/mnt/movies"));
    assert_eq!(drive_for_path(&d, "/mnt/moviesX/Y"), None);
    assert_eq!(owning_drive(&d, "/elsewhere").unwrap_err().kind_and_message().1, "source folder /elsewhere is not under any registered drive");
}

#[test]
fn batches_stay_on_one_drive() {
    let d = drives(&["/a", "/b"]);
    assert_eq!(batch_drive(&d, &drives(&["/a/x", "/a/y"])).unwrap(), "/a");
    match batch_drive(&d, &drives(&["/a/x", "/b/y"])) {
        Err(AppError::Other(m)) => assert_eq!(m, "episode /b/y is on a different drive than the rest of the batch"),
        other => panic!("unexpected {other:?}"),
    }
    match batch_drive(&d, &drives(&["/c/x", "/a/y"])) {
        Err(AppError::Other(m)) => assert_eq!(m, "source folder /c/x is not under any registered drive"),
        other => panic!("unexpected {other:?}"),
    }
    match batch_drive(&d, &drives(&["/a/x", "/a/y", "/c/z", "/b/w"])) {
        Err(AppError::Other(m)) => assert_eq!(m, "episode /c/z is on a different drive than the rest of the batch"),
        other => panic!("unexpected {other:?}"),
    }
    let nested = drives(&["/a", "/a/b"]);
    assert_eq!(drive_for_path(&nested, "/a/b/c").as_deref(), Some("/a/b"));
    assert_eq!(drive_for_path(&drives(&["/a/b", "/a"]), "/a/b/c").as_deref(), Some("/a/b"));
}

#[test]
fn target_and_registration() {
    assert_eq!(target_drive(Some("/a"), Some("/b")).unwrap(), "/a");
    assert_eq!(target_drive(None, Some("/b")).unwrap(), "/b");
    assert!(matches!(target_drive(None, None), Err(AppError::Other(m)) if m == "no drives registered"));
    let d = drives(&["/a"]);
    assert!(check_registered(&d, "/a/").is_ok());
    assert!(matches!(check_registered(&d, "/c"), Err(AppError::NotFound(m)) if m == "drive /c not registered"));
}

#[test]
fn rows_get_their_drive_and_sort_by_title() {
    let rows = tag_drive(vec![row("b"), row("A"), row("c")], "/hd");
    assert!(rows.iter().all(|r| r.drive_root.as_deref() == Some("/hd")));
    let mut rows = rows;
    sort_by_title(&mut rows);
    let titles: Vec<&str> = rows.iter().map(|r| r.title.as_str()).collect();
    assert_eq!(titles, vec!["A", "b", "c"]);
    let mut u = vec![row("Évora"), row("ábaco"), row("Zeta")];
    sort_by_title(&mut u);
    let titles: Vec<&str> = u.iter().map(|r| r.title.as_str()).collect();
    assert_eq!(titles, vec!["Zeta", "ábaco", "Évora"]);
    let mut same = vec![row("B"), row("a"), row("b")];
    sort_by_title(&mut same);
    let titles: Vec<&str> = same.iter().map(|r| r.title.as_str()).collect();
    assert_eq!(titles, vec!["a", "B", "b"]);
}

#[test]
fn scan_results_merge_across_drives() {
    let mut dto = ScanResultDto::empty();
    let report = ScanReport {
        catalogued: vec![],
        uncatalogued: vec![UncataloguedHit { folder: "/a/x".to_string(), video_filename: "x.mkv".to_string(), kind: UncataloguedKind::Movie }],
        skipped: vec![SkippedHit { folder: "/a/y".to_string(), video_count: 2 }],
    };
    dto.absorb(report, "/a");
    assert_eq!(dto.skipped_count, 1);
    assert_eq!(dto.catalogued_count, 0);
    assert_eq!(dto.uncatalogued.len(), 1);
    assert_eq!(dto.uncatalogued[0].drive_root, "/a");
    assert_eq!(dto.uncatalogued[0].folder, "/a/x");
}

#[test]
fn change_events_flatten_paths() {
    assert!(change_event(vec![vec![], vec![]]).is_none());
    let e = change_event(vec![vec!["/a".to_string()], vec![], vec!["/b".to_string(), "/c".to_string()]]).unwrap();
    assert_eq!(e.paths, drives(&["/a", "/b", "/c"]));
}

#[test]
fn drive_for_path_compares_byte_lengths() {
    // "/m/./././" has more characters, "/m/éééé" more bytes.
    let d = vec!["/m/./././".to_string(), "/m/éééé".to_string()];
    assert_eq!(drive_for_path(&d, "/m/éééé/x").as_deref(), Some("/m/éééé"));
    let d2 = vec!["/m/éééé".to_string(), "/m/./././".to_string()];
    assert_eq!(drive_for_path(&d2, "/m/éééé/x").as_deref(), Some("/m/éééé"));
}

#[test]
fn owning_drive_picks_the_nested_root() {
    let d = vec!["/mnt".to_string(), "/mnt/hd".to_string()];
    assert_eq!(owning_drive(&d, "/mnt/hd/Movies/X").unwrap(), "/mnt/hd");
    assert_eq!(owning_drive(&d, "/mnt/other/X").unwrap(), "/mnt");
    let d2 = vec!["/mnt/hd".to_string(), "/mnt".to_string()];
    assert_eq!(owning_drive(&d2, "/mnt/hd/Movies/X").unwrap(), "/mnt/hd");
}
