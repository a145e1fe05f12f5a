use sorta::ffmpeg::Codec;
use sorta::job::{
    backups_among, is_original_backup, is_preview_dir, is_temp_encode, original_sidecar_path, preview_dir_name,
    preview_source, temp_encode_path, file_step, CancelFlag, FileAction, FileEvent, FileStep, FileEnd, JobRun, JobState, StartCompressionArgs,
};

#[test]
fn original_sidecar_path_appends_dot_original() {
    assert_eq!(original_sidecar_path("/x/Movie.mkv"), "/x/Movie.original.mkv");
    assert_eq!(original_sidecar_path("/x/Movie"), "/x/Movie.original");
}

#[test]
fn temp_encode_path_appends_compressing() {
    assert_eq!(temp_encode_path("/x/Movie.mkv"), "/x/Movie.compressing.mkv");
}

#[test]
fn detects_backup_and_temp_files() {
    assert!(is_original_backup("/x/Movie.original.mkv"));
    assert!(!is_original_backup("/x/Movie.mkv"));
    assert!(is_temp_encode("/x/Movie.compressing.mkv"));
    assert!(!is_temp_encode("/x/Movie.mkv"));
}

fn files(names: &[&str]) -> Vec<String> {
    names.iter().map(|s| s.to_string()).collect()
}

#[test]
fn job_skips_leftovers_and_totals_outcomes() {
    let mut run = JobRun::new(files(&["/m/a.mkv", "/m/a.original.mkv", "/m/b.compressing.mkv", "/m/c.mkv"]));
    assert_eq!(run.total_files(), 2);
    let (i, f) = run.next_file().unwrap();
    assert_eq!((i, f.as_str()), (0, "/m/a.mkv"));
    run.finish_file(1000, FileEnd::Compressed(400));
    let (i, f) = run.next_file().unwrap();
    assert_eq!((i, f.as_str()), (1, "/m/c.mkv"));
    run.finish_file(500, FileEnd::ExitFailed(Some(1)));
    assert!(run.next_file().is_none());
    assert_eq!(run.bytes_saved(), 1100);
    let report = run.into_report("job".to_string());
    assert_eq!(report.state, JobState::Done);
    assert_eq!(report.total_original_bytes, 1500);
    assert_eq!(report.total_compressed_bytes, 400);
    assert_eq!(report.outcomes[0].compressed_bytes, Some(400));
    assert_eq!(report.outcomes[1].error.as_deref(), Some("ffmpeg exit Some(1)"));
}

#[test]
fn job_errors_carry_their_stage() {
    let mut run = JobRun::new(files(&["/m/a.mkv", "/m/b.mkv", "/m/c.mkv"]));
    run.finish_file(1, FileEnd::ProbeFailed("bad".to_string()));
    run.finish_file(2, FileEnd::VerifyFailed("broken".to_string()));
    run.finish_file(3, FileEnd::Cancelled);
    assert!(run.next_file().is_none());
    let report = run.into_report("j".to_string());
    assert_eq!(report.state, JobState::Cancelled);
    assert_eq!(report.outcomes[0].error.as_deref(), Some("ffprobe duration: bad"));
    assert_eq!(report.outcomes[1].error.as_deref(), Some("verify: broken"));
    assert_eq!(report.outcomes[2].error.as_deref(), Some("cancelled"));
    assert_eq!(report.total_original_bytes, 6);
}

#[test]
fn cancel_before_next_stops_the_job() {
    let mut run = JobRun::new(files(&["/m/a.mkv"]));
    run.cancel_before_next();
    assert!(run.next_file().is_none());
    assert_eq!(run.into_report("j".to_string()).state, JobState::Cancelled);
}

#[test]
fn cancel_flag_is_shared_between_clones() {
    let f = CancelFlag::new();
    let g = f.clone();
    assert!(!g.is_cancelled());
    f.cancel();
    assert!(g.is_cancelled());
}

#[test]
fn backups_and_preview_source() {
    let v = files(&["/m/a.original.mkv", "/m/a.compressing.mkv", "/m/b.mkv", "/m/c.original.mp4"]);
    assert_eq!(backups_among(&v), files(&["/m/a.original.mkv", "/m/c.original.mp4"]));
    assert_eq!(preview_source(&v).as_deref(), Some("/m/b.mkv"));
    assert_eq!(preview_source(&files(&["/m/x.original.mkv"])), None);
}

#[test]
fn start_args_give_settings() {
    let a = StartCompressionArgs { media_id: 1, codec: Codec::HevcAmf, crf: 28, downscale_720p: true, exhaustive_verify: false };
    let s = a.settings();
    assert_eq!(s.codec, Codec::HevcAmf);
    assert_eq!(s.crf, 28);
    assert!(s.downscale_720p);
    assert!(!s.exhaustive_verify);
}

#[test]
fn only_preview_folders_are_discarded() {
    let name = preview_dir_name("1b4e28ba-2fa1-11d2-883f-0016d3cca427");
    assert_eq!(name, "sorta-preview-1b4e28ba-2fa1-11d2-883f-0016d3cca427");
    assert!(is_preview_dir(&format!("/tmp/{name}")));
    assert!(is_preview_dir(&format!("/tmp/{name}/")));
    assert!(is_preview_dir("sorta-preview-"));
    assert!(!is_preview_dir("/tmp"));
    assert!(!is_preview_dir("/home/user/Movies"));
    assert!(!is_preview_dir("/tmp/sorta-previe"));
    assert!(!is_preview_dir("/sorta-preview-x/other"));
    assert!(!is_preview_dir("/"));
}

#[test]
fn leftovers_of_a_job_are_recognised() {
    for f in ["/hd/Movies/A [tmdb-1]/A [tmdb-1].mkv", "/x/ep.S01E01.MP4", "rel/v.webm"] {
        let backup = original_sidecar_path(f);
        let temp = temp_encode_path(f);
        assert!(is_original_backup(&backup) && !is_temp_encode(&backup));
        assert!(is_temp_encode(&temp) && !is_original_backup(&temp));
        assert!(sorta::classify::is_video_file(&backup) && sorta::classify::is_video_file(&temp));
        let all = vec![backup.clone(), temp.clone(), f.to_string()];
        assert_eq!(backups_among(&all), vec![backup]);
        assert_eq!(preview_source(&all).as_deref(), Some(f));
    }
}

fn step(file: &str, backup_exists: bool, s: FileStep, e: FileEvent) -> (FileStep, Vec<FileAction>) {
    file_step(file, backup_exists, s, e)
}

fn rename_of(a: &FileAction) -> (String, String) {
    match a {
        FileAction::Rename { from, to } => (from.clone(), to.clone()),
        other => panic!("expected a rename, got {other:?}"),
    }
}

#[test]
fn file_flow_encodes_verifies_and_swaps() {
    let f = "/m/A.mkv";
    let (s, a) = step(f, false, FileStep::Probing, FileEvent::ProbeOk);
    assert_eq!(s, FileStep::Encoding);
    assert!(matches!(&a[0], FileAction::RemoveTemp(p) if p == "/m/A.compressing.mkv"));
    assert!(matches!(&a[1], FileAction::Encode { input, output } if input == f && output == "/m/A.compressing.mkv"));
    let (s, a) = step(f, false, s, FileEvent::EncodeOk);
    assert_eq!(s, FileStep::Verifying);
    assert!(matches!(&a[0], FileAction::Verify(p) if p == "/m/A.compressing.mkv"));
    let (s, a) = step(f, false, s, FileEvent::VerifyOk);
    assert_eq!(s, FileStep::BackingUp);
    assert_eq!(rename_of(&a[0]), (f.to_string(), "/m/A.original.mkv".to_string()));
    let (s, a) = step(f, false, s, FileEvent::RenameOk);
    assert_eq!(s, FileStep::Replacing);
    assert_eq!(rename_of(&a[0]), ("/m/A.compressing.mkv".to_string(), f.to_string()));
    let (s, a) = step(f, false, s, FileEvent::RenameOk);
    assert_eq!(s, FileStep::Measuring);
    assert!(matches!(&a[0], FileAction::Measure(p) if p == f));
    let (s, a) = step(f, false, s, FileEvent::Measured(42));
    assert_eq!(s, FileStep::Finished);
    assert!(matches!(&a[0], FileAction::Finish(FileEnd::Compressed(42))));
}

#[test]
fn file_flow_never_overwrites_a_backup_and_restores_on_failure() {
    let f = "/m/A.mkv";
    let (s, a) = step(f, true, FileStep::Verifying, FileEvent::VerifyOk);
    assert_eq!(s, FileStep::Finished);
    assert!(matches!(&a[0], FileAction::RemoveTemp(p) if p == "/m/A.compressing.mkv"));
    assert!(matches!(&a[1], FileAction::Finish(FileEnd::RenameOriginalFailed(m)) if m == "backup already exists: /m/A.original.mkv"));
    let (s, a) = step(f, false, FileStep::Replacing, FileEvent::RenameFailed("busy".to_string()));
    assert_eq!(s, FileStep::Finished);
    assert_eq!(rename_of(&a[0]), ("/m/A.original.mkv".to_string(), f.to_string()));
    assert!(matches!(&a[1], FileAction::Finish(FileEnd::RenameCompressedFailed(m)) if m == "busy"));
    let (s, a) = step(f, false, FileStep::Encoding, FileEvent::EncodeCancelled);
    assert_eq!(s, FileStep::Finished);
    assert!(matches!(&a[0], FileAction::RemoveTemp(_)));
    assert!(matches!(&a[1], FileAction::Finish(FileEnd::Cancelled)));
    let (s, a) = step(f, false, FileStep::Probing, FileEvent::ProbeFailed("x".to_string()));
    assert_eq!(s, FileStep::Finished);
    assert_eq!(a.len(), 1);
    let (s, a) = step(f, false, FileStep::Encoding, FileEvent::RenameOk);
    assert_eq!(s, FileStep::Encoding);
    assert!(a.is_empty());
}

#[test]
fn leftovers_of_any_file_are_told_apart() {
    let f = "/x/notes.txt";
    let backup = original_sidecar_path(f);
    let temp = temp_encode_path(f);
    assert_eq!(backup, "/x/notes.original.txt");
    assert_eq!(temp, "/x/notes.compressing.txt");
    assert!(is_original_backup(&backup) && !is_temp_encode(&backup));
    assert!(is_temp_encode(&temp) && !is_original_backup(&temp));
    assert!(!sorta::classify::is_video_file(&backup));
}
