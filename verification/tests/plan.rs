use sorta::execute::{execute_link, execute_ops, plan_genre_merge, MergeEntry, Undo};
use sorta::error::AppError;
use sorta::plan::{plan_link, LinkPlanInput, Op};

#[test]
fn plans_movie_link_with_genre() {
    let siblings = vec!["video.mkv".to_string(), "video.srt".to_string()];
    let input = LinkPlanInput {
        hd_root: "/hd",
        kind_root_label: "Movies",
        genre_folder: Some("Action"),
        current_folder: "/hd/Uncatalogued/whatever",
        video_filename: "video.mkv",
        siblings: &siblings,
        tmdb_id: 27205,
        title: "Inception",
    };
    let plan = plan_link(&input);
    assert_eq!(plan.target_folder, "/hd/Movies/Action/Inception [tmdb-27205]");
    assert_eq!(plan.new_video_filename, "Inception [tmdb-27205].mkv");
    assert_eq!(plan.ops.len(), 3);
    assert_eq!(plan.ops[0], Op::CreateDir("/hd/Movies/Action/Inception [tmdb-27205]".to_string()));
    assert_eq!(
        plan.ops[1],
        Op::MoveFile {
            from: "/hd/Uncatalogued/whatever/video.mkv".to_string(),
            to: "/hd/Movies/Action/Inception [tmdb-27205]/Inception [tmdb-27205].mkv".to_string(),
        }
    );
    assert_eq!(
        plan.ops[2],
        Op::MoveFile {
            from: "/hd/Uncatalogued/whatever/video.srt".to_string(),
            to: "/hd/Movies/Action/Inception [tmdb-27205]/Inception [tmdb-27205].srt".to_string(),
        }
    );
}

#[test]
fn plans_tv_link_without_genre() {
    let siblings = vec!["pilot.mkv".to_string()];
    let input = LinkPlanInput {
        hd_root: "/hd",
        kind_root_label: "Series",
        genre_folder: None,
        current_folder: "/hd/Series/RawDump",
        video_filename: "pilot.mkv",
        siblings: &siblings,
        tmdb_id: 1399,
        title: "Game of Thrones",
    };
    let plan = plan_link(&input);
    assert_eq!(plan.target_folder, "/hd/Series/Game of Thrones [tmdb-1399]");
    assert_eq!(plan.new_video_filename, "Game of Thrones [tmdb-1399].mkv");
}

#[test]
fn plans_with_translated_labels() {
    let input = LinkPlanInput {
        hd_root: "/hd",
        kind_root_label: "Filmes",
        genre_folder: Some("Ação"),
        current_folder: "/hd/x",
        video_filename: "v.mp4",
        siblings: &[],
        tmdb_id: 1,
        title: "Matrix",
    };
    let plan = plan_link(&input);
    assert_eq!(plan.target_folder, "/hd/Filmes/Ação/Matrix [tmdb-1]");
}

#[test]
fn plans_preserves_tagged_sidecar_names() {
    let siblings = vec!["video.mkv".to_string(), "video.en.srt".to_string(), "video.pt-BR.srt".to_string()];
    let input = LinkPlanInput {
        hd_root: "/hd",
        kind_root_label: "Movies",
        genre_folder: Some("Drama"),
        current_folder: "/hd/x",
        video_filename: "video.mkv",
        siblings: &siblings,
        tmdb_id: 9,
        title: "T",
    };
    let plan = plan_link(&input);
    let new_names: Vec<String> = plan
        .ops
        .iter()
        .filter_map(|op| match op {
            Op::MoveFile { to, .. } => to.rsplit('/').next().map(|s| s.to_string()),
            _ => None,
        })
        .collect();
    assert!(new_names.iter().any(|n| n.ends_with(".en.srt")));
    assert!(new_names.iter().any(|n| n.ends_with(".pt-BR.srt")));
}

fn inception_plan() -> sorta::plan::LinkPlan {
    let siblings = vec!["video.mkv".to_string()];
    plan_link(&LinkPlanInput {
        hd_root: "/hd",
        kind_root_label: "Movies",
        genre_folder: Some("Action"),
        current_folder: "/hd/Uncatalogued/raw",
        video_filename: "video.mkv",
        siblings: &siblings,
        tmdb_id: 27205,
        title: "Inception",
    })
}

#[test]
fn execute_link_aborts_on_conflict() {
    let plan = inception_plan();
    match execute_link(&plan, true) {
        Err(AppError::Conflict(m)) => {
            assert_eq!(m, "target folder already exists: /hd/Movies/Action/Inception [tmdb-27205]")
        }
        other => panic!("expected Conflict, got {other:?}"),
    }
    assert_eq!(execute_link(&plan, false).unwrap().len(), plan.ops.len());
}

#[test]
fn failed_run_undoes_done_ops_newest_first() {
    let plan = inception_plan();
    // The second op (the video move) failed: only the created folder is undone.
    assert_eq!(
        execute_ops(&plan.ops, Some(1)),
        vec![Undo::RemoveDir("/hd/Movies/Action/Inception [tmdb-27205]".to_string())]
    );
    let ops = vec![
        Op::MoveFile { from: "/a".to_string(), to: "/b".to_string() },
        Op::MoveDir { from: "/c".to_string(), to: "/d".to_string() },
        Op::RemoveEmptyDir("/e".to_string()),
    ];
    assert_eq!(
        execute_ops(&ops, Some(2)),
        vec![
            Undo::Rename { from: "/d".to_string(), to: "/c".to_string() },
            Undo::Rename { from: "/b".to_string(), to: "/a".to_string() },
        ]
    );
    assert!(execute_ops(&ops, None).is_empty());
}

#[test]
fn merge_genre_folders_moves_children_and_removes_source() {
    let entries = vec![MergeEntry {
        name: "Up [tmdb-14160]".to_string(),
        path: "/hd/Movies/Adventure/Up [tmdb-14160]".to_string(),
        is_dir: true,
        dest_exists: false,
    }];
    let plan = plan_genre_merge("/hd/Movies/Adventure", "/hd/Movies/Ação", true, &entries).unwrap().unwrap();
    assert_eq!(plan.moved, vec!["/hd/Movies/Ação/Up [tmdb-14160]".to_string()]);
    assert_eq!(
        plan.ops,
        vec![
            Op::MoveDir {
                from: "/hd/Movies/Adventure/Up [tmdb-14160]".to_string(),
                to: "/hd/Movies/Ação/Up [tmdb-14160]".to_string(),
            },
            Op::RemoveEmptyDir("/hd/Movies/Adventure".to_string()),
        ]
    );
}

#[test]
fn merge_genre_folders_conflict_when_child_already_exists() {
    let entries = vec![MergeEntry {
        name: "Up [tmdb-14160]".to_string(),
        path: "/hd/Movies/Adventure/Up [tmdb-14160]".to_string(),
        is_dir: true,
        dest_exists: true,
    }];
    let err = plan_genre_merge("/hd/Movies/Adventure", "/hd/Movies/Ação", true, &entries).unwrap_err();
    assert!(matches!(err, AppError::Conflict(_)));
}

#[test]
fn merge_into_itself_or_from_missing_is_nothing() {
    assert!(plan_genre_merge("/hd/Movies/A", "/hd/Movies/A/", true, &vec![]).unwrap().is_none());
    assert!(plan_genre_merge("/hd/Movies/A", "/hd/Movies/B", false, &vec![]).unwrap().is_none());
}

#[test]
fn link_plans_only_move_files_into_the_target() {
    let siblings = vec![
        "Film.2010.mkv".to_string(),
        "Film.2010.en.srt".to_string(),
        "film.2010.pt-BR.forced.ass".to_string(),
        "notes.txt".to_string(),
        "Other.srt".to_string(),
    ];
    let input = LinkPlanInput {
        hd_root: "/hd",
        kind_root_label: "Filmes",
        genre_folder: Some("Ação"),
        current_folder: "/hd/in/Film",
        video_filename: "Film.2010.mkv",
        siblings: &siblings,
        tmdb_id: 7,
        title: "Film: The Movie",
    };
    let plan = plan_link(&input);
    assert_eq!(plan.ops[0], Op::CreateDir(plan.target_folder.clone()));
    for op in &plan.ops[1..] {
        match op {
            Op::MoveFile { from, to } => {
                assert!(from.starts_with("/hd/in/Film/"));
                assert!(to.starts_with(&format!("{}/", plan.target_folder)));
                assert!(!to[plan.target_folder.len() + 1..].contains('/'));
            }
            other => panic!("unexpected {other:?}"),
        }
    }
    assert_eq!(plan.ops.len(), 4);
}
