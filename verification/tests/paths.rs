use std::path::Path;
use video_squeezer::paths::{file_display_name, file_name_of, is_video, output_names, preview_file_name, sanitize_filename, stem_of};

#[test]
fn video_extension_check_is_case_insensitive() {
    assert!(is_video("movie.MKV"));
    assert!(is_video("clip.Mp4"));
    assert!(!is_video("notes.txt"));
}

#[test]
fn sanitization_preserves_safe_characters() {
    assert_eq!(sanitize_filename("movie-2026_final"), "movie-2026_final");
}

#[test]
fn sanitization_replaces_unsafe_characters() {
    assert_eq!(sanitize_filename("a file (final).mkv"), "a_file__final__mkv");
}

#[test]
fn hidden_and_extensionless_files_are_not_videos() {
    assert!(!is_video(".mp4"));
    assert!(!is_video("mp4"));
    assert!(is_video("dir.mp4/"));
    assert!(is_video("dir/clip.m2ts"));
    assert!(is_video("..mp4"));
    assert!(is_video("/videos/./holiday.WEBM"));
    assert!(!is_video("/videos/.."));
}

#[test]
fn path_names_agree_with_std_path() {
    let samples = [
        "", "/", ".", "..", "a", "a/", "a/.", "a/..", "./a", "a//b", "/a/b.c", "a.b.c", ".hidden",
        "..a", "a.", "dir/.x.y", "x/./", "/..", "a/../b.mkv", "movie.MKV", "c:/x y/z (1).mov",
        "über/straße.mp4", "a/b/", "///", "a/b/.", "a/ ", " .mp4",
    ];
    for sample in samples {
        let path = Path::new(sample);
        let expected_name = path.file_name().map(|name| name.to_str().unwrap().to_owned());
        assert_eq!(file_name_of(sample), expected_name, "file name of {sample:?}");
        let expected_display = path.file_name().and_then(|name| name.to_str()).unwrap_or("<unknown>");
        assert_eq!(file_display_name(sample), expected_display);
        let expected_stem = path.file_stem().and_then(|stem| stem.to_str()).unwrap_or("video");
        assert_eq!(stem_of(sample), expected_stem, "stem of {sample:?}");
        let expected_video = matches!(
            path.extension()
                .and_then(|extension| extension.to_str())
                .map(|extension| extension.to_ascii_lowercase())
                .as_deref(),
            Some("mp4" | "mkv" | "mov" | "avi" | "m4v" | "webm" | "wmv" | "mpg" | "mpeg" | "ts" | "mts" | "m2ts")
        );
        assert_eq!(is_video(sample), expected_video, "is_video {sample:?}");
    }
}

#[test]
fn generated_names_follow_the_stem() {
    let names = output_names("/in/My Movie.final.mkv");
    assert_eq!(names.output, "My Movie.final.compressed.mp4");
    assert_eq!(names.partial, ".My Movie.final.compressed.partial.mp4");
    assert_eq!(names.contact_sheet, "My Movie.final.contact-sheet.jpg");
    assert_eq!(names.contact_sheet_partial, ".My Movie.final.contact-sheet.partial.jpg");
    assert_eq!(preview_file_name(7, "/in/My Movie.final.mkv"), "7-My_Movie_final.jpg");
    assert_eq!(output_names("/").output, "video.compressed.mp4");
}
