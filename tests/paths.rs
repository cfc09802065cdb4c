use jp2tw_captioner::paths::{
    default_output_video_path, default_srt_path, escape_for_ffmpeg, sibling_parts,
};
use std::path::PathBuf;

#[test]
fn test_default_paths() {
    let input = PathBuf::from("/tmp/sample.mp4");
    let srt = default_srt_path(input.to_str().unwrap());
    assert_eq!(PathBuf::from(srt), PathBuf::from("/tmp/sample.zh-TW.srt"));

    let mp4 = default_output_video_path(input.to_str().unwrap());
    assert_eq!(PathBuf::from(mp4), PathBuf::from("/tmp/sample.zh.mp4"));
}

#[test]
fn test_escape_for_ffmpeg() {
    let p = PathBuf::from("/a:b=c\\ d");
    let esc = escape_for_ffmpeg(p.to_str().unwrap());
    // ":" -> "\\:", "=" -> "\\=", "\\" -> "\\\\"
    assert!(esc.contains("\\:"));
    assert!(esc.contains("\\="));
    assert!(esc.contains("\\\\"));
}

#[test]
fn escape_exact_output() {
    assert_eq!(escape_for_ffmpeg("/a:b=c\\ d"), "/a\\:b\\=c\\\\ d");
    assert_eq!(escape_for_ffmpeg("plain/path.ass"), "plain/path.ass");
    assert_eq!(escape_for_ffmpeg(""), "");
}

#[test]
fn default_paths_without_directory() {
    assert_eq!(default_srt_path("clip.mp4"), "clip.zh-TW.srt");
    assert_eq!(default_output_video_path("clip.mp4"), "clip.zh.mp4");
}

#[test]
fn default_paths_keep_inner_dots() {
    assert_eq!(
        PathBuf::from(default_srt_path("/v/my.talk.mp4")),
        PathBuf::from("/v/my.talk.zh-TW.srt")
    );
    assert_eq!(
        PathBuf::from(default_output_video_path("/v/noext")),
        PathBuf::from("/v/noext.zh.mp4")
    );
}

#[test]
fn default_paths_without_file_name() {
    assert_eq!(default_srt_path("/"), "./output.zh-TW.srt");
}

#[test]
fn sibling_parts_fill_in_missing_pieces() {
    assert_eq!(
        sibling_parts(None, None, ".zh.mp4"),
        (".".to_string(), "output.zh.mp4".to_string())
    );
    assert_eq!(
        sibling_parts(Some("/tmp".to_string()), Some("clip".to_string()), ".zh-TW.srt"),
        ("/tmp".to_string(), "clip.zh-TW.srt".to_string())
    );
}
