use sorta::error::AppError;
use sorta::walker::{scan, DirTree, UncataloguedKind};

fn dir(path: &str, files: &[&str], children: Vec<DirTree>) -> DirTree {
    DirTree {
        path: path.to_string(),
        readable: true,
        files: files.iter().map(|s| s.to_string()).collect(),
        children,
    }
}

#[test]
fn scan_classifies_mixed_tree() {
    let hd = "/hd";
    let tree = dir(
        hd,
        &[],
        vec![
            dir(
                "/hd/Movies",
                &[],
                vec![dir(
                    "/hd/Movies/Action",
                    &[],
                    vec![dir("/hd/Movies/Action/Inception [tmdb-27205]", &["Inception [tmdb-27205].mkv"], vec![])],
                )],
            ),
            dir(
                "/hd/Series",
                &[],
                vec![dir(
                    "/hd/Series/Game of Thrones [tmdb-1399]",
                    &[],
                    vec![dir("/hd/Series/Game of Thrones [tmdb-1399]/Season 1", &["E1.mkv"], vec![])],
                )],
            ),
            dir(
                "/hd/Imports",
                &[],
                vec![
                    dir("/hd/Imports/Some Movie 2019", &["movie.mp4"], vec![]),
                    dir("/hd/Imports/Bundle", &["a.mkv", "b.mkv"], vec![]),
                ],
            ),
            dir("/hd/poster", &["27205.jpg"], vec![]),
        ],
    );
    let report = scan(&tree, true).unwrap();
    assert_eq!(report.catalogued.len(), 2, "{:#?}", report);
    let ids: Vec<i64> = report.catalogued.iter().map(|c| c.tmdb_id).collect();
    assert!(ids.contains(&27205));
    assert!(ids.contains(&1399));
    let unc: Vec<&str> = report.uncatalogued.iter().map(|u| u.folder.as_str()).collect();
    assert!(unc.contains(&"/hd/Imports/Some Movie 2019"));
    assert!(unc.contains(&"/hd/Imports/Bundle"));
    assert_eq!(report.skipped.len(), 1);
    assert_eq!(report.skipped[0].folder, "/hd/Imports/Bundle");
}

#[test]
fn scan_errors_on_missing_root() {
    let tree = dir("/tmp/does-not-exist", &[], vec![]);
    assert!(matches!(scan(&tree, false), Err(AppError::InvalidPath(_))));
}

#[test]
fn scan_recurses_into_subfolders_even_when_parent_has_videos() {
    let tree = dir(
        "/hd",
        &[],
        vec![dir(
            "/hd/Library",
            &[],
            vec![dir(
                "/hd/Library/Top Movie",
                &["top.mkv"],
                vec![dir("/hd/Library/Top Movie/Inner Movie", &["inner.mkv"], vec![])],
            )],
        )],
    );
    let report = scan(&tree, true).unwrap();
    let folders: Vec<&str> = report.uncatalogued.iter().map(|u| u.folder.as_str()).collect();
    assert!(folders.contains(&"/hd/Library/Top Movie"), "{:#?}", report);
    assert!(folders.contains(&"/hd/Library/Top Movie/Inner Movie"), "{:#?}", report);
    for u in &report.uncatalogued {
        assert_eq!(u.kind, UncataloguedKind::Movie);
    }
}

#[test]
fn scan_treats_multi_video_folder_as_uncatalogued_series() {
    let tree = dir("/hd", &[], vec![dir("/hd/Lupin", &["E1.mkv", "E2.mkv", "E3.mkv"], vec![])]);
    let report = scan(&tree, true).unwrap();
    let lupin = report.uncatalogued.iter().find(|u| u.folder == "/hd/Lupin").unwrap();
    assert_eq!(lupin.kind, UncataloguedKind::Series);
}

#[test]
fn scan_surfaces_series_root_when_subdirs_look_like_seasons() {
    let tree = dir(
        "/hd",
        &[],
        vec![dir(
            "/hd/serie",
            &[],
            vec![
                dir(
                    "/hd/serie/9-1-1",
                    &[],
                    vec![
                        dir("/hd/serie/9-1-1/Season 1", &["E1.mkv", "E2.mkv"], vec![]),
                        dir("/hd/serie/9-1-1/Season 2", &["E1.mkv"], vec![]),
                    ],
                ),
                dir("/hd/serie/Lupin", &[], vec![dir("/hd/serie/Lupin/Season 1", &["E1.mkv"], vec![])]),
            ],
        )],
    );
    let report = scan(&tree, true).unwrap();
    let folders: Vec<&str> = report.uncatalogued.iter().map(|u| u.folder.as_str()).collect();
    assert!(folders.contains(&"/hd/serie/9-1-1"), "9-1-1 not in {:#?}", report);
    assert!(folders.contains(&"/hd/serie/Lupin"), "Lupin not in {:#?}", report);
    for u in &report.uncatalogued {
        assert!(!u.folder.contains("Season "), "Season folder leaked: {:?}", u);
        assert_eq!(u.kind, UncataloguedKind::Series, "{:?}", u);
    }
}

#[test]
fn scan_skips_windows_system_dirs_and_continues() {
    let tree = dir(
        "/hd",
        &[],
        vec![
            dir("/hd/$RECYCLE.BIN", &["whatever.bin"], vec![]),
            dir("/hd/System Volume Information", &["track.log"], vec![]),
            dir("/hd/Terror", &[], vec![dir("/hd/Terror/A Longa Marcha", &["A Longa Marcha.mp4"], vec![])]),
        ],
    );
    let report = scan(&tree, true).unwrap();
    let folders: Vec<&str> = report.uncatalogued.iter().map(|u| u.folder.as_str()).collect();
    assert!(folders.contains(&"/hd/Terror/A Longa Marcha"), "{:#?}", report);
    for u in &report.uncatalogued {
        assert!(!u.folder.contains("$RECYCLE.BIN"));
        assert!(!u.folder.contains("System Volume Information"));
    }
}

#[test]
fn scan_does_not_descend_into_catalogued_containers() {
    let tree = dir(
        "/hd",
        &[],
        vec![dir(
            "/hd/Series",
            &[],
            vec![dir(
                "/hd/Series/Game of Thrones [tmdb-1399]",
                &[],
                vec![dir("/hd/Series/Game of Thrones [tmdb-1399]/Season 1", &["E1.mkv", "E2.mkv"], vec![])],
            )],
        )],
    );
    let report = scan(&tree, true).unwrap();
    assert_eq!(report.catalogued.len(), 1);
    assert!(report.uncatalogued.is_empty(), "{:#?}", report);
    assert!(report.skipped.is_empty(), "{:#?}", report);
}

#[test]
fn scan_lists_are_sorted_by_path() {
    let tree = dir(
        "/hd",
        &[],
        vec![dir("/hd/b", &["x.mkv"], vec![]), dir("/hd/a", &["y.mkv"], vec![])],
    );
    let report = scan(&tree, true).unwrap();
    let folders: Vec<&str> = report.uncatalogued.iter().map(|u| u.folder.as_str()).collect();
    assert_eq!(folders, vec!["/hd/a", "/hd/b"]);
}

#[test]
fn every_hit_lies_under_the_root() {
    let tree = dir(
        "/hd",
        &["loose.mkv"],
        vec![
            dir("/hd/A", &["a.mkv", "b.mkv"], vec![]),
            dir("/hd/B", &[], vec![dir("/hd/B/X [tmdb-3]", &["x.mkv"], vec![])]),
            dir("/hd/C", &["c.mp4"], vec![dir("/hd/C/D", &["d.avi"], vec![])]),
        ],
    );
    let rep = scan(&tree, true).unwrap();
    let folders: Vec<&String> = rep
        .catalogued
        .iter()
        .map(|h| &h.folder)
        .chain(rep.uncatalogued.iter().map(|h| &h.folder))
        .chain(rep.skipped.iter().map(|h| &h.folder))
        .collect();
    assert_eq!(folders.len(), 6);
    assert!(folders.iter().all(|f| f.as_str() == "/hd" || f.starts_with("/hd/")));
}
