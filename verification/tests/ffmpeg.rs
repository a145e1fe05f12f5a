use sorta::ffmpeg::{
    build_encode_argv, parse_hwaccels_from_encoders, parse_version_output, verify_verdict, Codec, EncodeArgs, FfmpegStatus,
};
use sorta::error::AppError;

fn status(hw: &[&str]) -> FfmpegStatus {
    FfmpegStatus {
        ffmpeg_path: None,
        ffprobe_path: None,
        ffmpeg_version: None,
        hwaccels: hw.iter().map(|s| s.to_string()).collect(),
    }
}

#[test]
fn build_argv_for_software_hevc_full_encode() {
    let args = EncodeArgs {
        input: "/in.mkv",
        output: "/out.mkv",
        codec: Codec::Hevc,
        crf: 26,
        downscale_720p: false,
        start_millis: None,
        duration_millis: None,
        progress_to_stderr: true,
    };
    let argv = build_encode_argv(&args);
    assert!(argv.contains(&"libx265".to_string()));
    assert!(argv.contains(&"-crf".to_string()));
    assert!(argv.contains(&"26".to_string()));
    assert!(argv.contains(&"copy".to_string()));
    assert!(argv.contains(&"-progress".to_string()));
    assert!(!argv.contains(&"-ss".to_string()));
    assert!(!argv.contains(&"-t".to_string()));
}

#[test]
fn build_argv_for_preview_segment() {
    let args = EncodeArgs {
        input: "/in.mkv",
        output: "/out.mkv",
        codec: Codec::Hevc,
        crf: 22,
        downscale_720p: true,
        start_millis: Some(120_000),
        duration_millis: Some(15_000),
        progress_to_stderr: false,
    };
    let argv = build_encode_argv(&args);
    assert!(argv.contains(&"-ss".to_string()));
    assert!(argv.contains(&"120.000".to_string()));
    assert!(argv.contains(&"-t".to_string()));
    assert!(argv.contains(&"15.000".to_string()));
    assert!(argv.contains(&"scale=-2:720".to_string()));
    assert!(!argv.contains(&"-progress".to_string()));
}

#[test]
fn nvenc_uses_cq_not_crf() {
    let args = EncodeArgs {
        input: "/in.mkv",
        output: "/out.mkv",
        codec: Codec::HevcNvenc,
        crf: 24,
        downscale_720p: false,
        start_millis: None,
        duration_millis: None,
        progress_to_stderr: true,
    };
    let argv = build_encode_argv(&args);
    assert!(argv.contains(&"hevc_nvenc".to_string()));
    assert!(argv.contains(&"-cq".to_string()));
    assert!(!argv.contains(&"-crf".to_string()));
}

#[test]
fn qsv_uses_global_quality() {
    let args = EncodeArgs {
        input: "/in.mkv",
        output: "/out.mkv",
        codec: Codec::HevcQsv,
        crf: 24,
        downscale_720p: false,
        start_millis: None,
        duration_millis: None,
        progress_to_stderr: false,
    };
    let argv = build_encode_argv(&args);
    assert!(argv.contains(&"-global_quality".to_string()));
}

#[test]
fn full_argv_is_exact() {
    let args = EncodeArgs {
        input: "/in.mkv",
        output: "/out.mkv",
        codec: Codec::H264,
        crf: -3,
        downscale_720p: false,
        start_millis: Some(1_005),
        duration_millis: None,
        progress_to_stderr: true,
    };
    let argv = build_encode_argv(&args);
    let expect: Vec<String> = [
        "-y", "-hide_banner", "-ss", "1.005", "-i", "/in.mkv", "-c:v", "libx264", "-crf", "-3", "-preset",
        "medium", "-c:a", "copy", "-c:s", "copy", "-progress", "pipe:2", "-nostats", "/out.mkv",
    ]
    .iter()
    .map(|s| s.to_string())
    .collect();
    assert_eq!(argv, expect);
}

#[test]
fn auto_codec_prefers_nvenc_over_software() {
    assert_eq!(Codec::auto_default(&status(&["nvenc", "qsv"])), Codec::HevcNvenc);
    assert_eq!(Codec::auto_default(&status(&["amf"])), Codec::HevcAmf);
    assert_eq!(Codec::auto_default(&status(&[])), Codec::Hevc);
}

#[test]
fn codec_names_and_hardware() {
    assert_eq!(Codec::HevcAmf.ffmpeg_name(), "hevc_amf");
    assert!(Codec::HevcQsv.is_hardware());
    assert!(!Codec::H264.is_hardware());
    assert_eq!(Codec::auto_default(&status(&["videotoolbox", "qsv"])), Codec::HevcQsv);
}

#[test]
fn version_output_is_parsed() {
    let v = parse_version_output(
        "ffmpeg version n7.1 Copyright (c) 2000-2024 the FFmpeg developers\n  built with ...",
    );
    assert_eq!(v.as_deref(), Some("n7.1"));
    assert_eq!(parse_version_output("avconv version 1"), None);
    assert_eq!(parse_version_output(""), None);
    assert_eq!(parse_version_output("ffmpeg version"), None);
}

#[test]
fn hwaccels_extracted_from_encoders_listing() {
    let sample = "
 V....D h264                 ...
 V....D libx264              ...
 V....D libx265              ...
 V....D hevc_nvenc           NVIDIA NVENC hevc encoder
 V....D hevc_qsv             ...
        ";
    let mut got = parse_hwaccels_from_encoders(sample);
    got.sort();
    assert_eq!(got, vec!["nvenc".to_string(), "qsv".to_string()]);
}

#[test]
fn hwaccels_listed_once_in_first_seen_order() {
    let sample = "hevc_vaapi\r\nhevc_amf hevc_nvenc\nhevc_amf";
    assert_eq!(
        parse_hwaccels_from_encoders(sample),
        vec!["vaapi".to_string(), "nvenc".to_string(), "amf".to_string()]
    );
}

#[test]
fn readiness_needs_both_binaries() {
    let mut s = status(&[]);
    assert!(!s.is_ready());
    s.ffmpeg_path = Some("/usr/bin/ffmpeg".to_string());
    assert!(!s.is_ready());
    s.ffprobe_path = Some("/usr/bin/ffprobe".to_string());
    assert!(s.is_ready());
}

#[test]
fn verify_failure_names_the_kind_of_verify() {
    assert!(matches!(
        verify_verdict(false, "moov atom not found", "structural"),
        Err(AppError::Other(m)) if m == "structural verify failed: moov atom not found"
    ));
}

#[test]
fn verify_with_stderr_output_is_an_error() {
    assert!(matches!(
        verify_verdict(true, "[hevc] error while decoding\n", "exhaustive"),
        Err(AppError::Other(m)) if m == "verify reported: [hevc] error while decoding\n"
    ));
}

#[test]
fn verify_clean_run_passes() {
    assert!(verify_verdict(true, "", "structural").is_ok());
    assert!(verify_verdict(true, " \n\t", "structural").is_ok());
}
