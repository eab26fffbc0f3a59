use fast_transcript::paths::{output_candidate, path_inside_directory};
use fast_transcript::usage::display_help_path;

#[test]
fn output_candidate_keeps_absolute_paths_and_anchors_relative_ones() {
    assert_eq!(output_candidate("/abs/out.txt", "/work"), "/abs/out.txt");
    assert_eq!(output_candidate("notes/out.txt", "/work"), "/work/notes/out.txt");
}

#[test]
fn resolve_output_target_path_uses_default_filename_inside_existing_directory() {
    assert_eq!(
        path_inside_directory("/work/exports", "/tmp/audio.speakers.txt"),
        "/work/exports/audio.speakers.txt"
    );
    assert_eq!(path_inside_directory("/work/exports", "/"), "/work/exports/transcript.txt");
}

#[test]
fn help_paths_are_shown_relative_to_home() {
    assert_eq!(
        display_help_path("/home/u/.local/share/fast-transcript", Some("/home/u")),
        "~/.local/share/fast-transcript"
    );
    assert_eq!(display_help_path("/home/u", Some("/home/u")), "~");
    assert_eq!(display_help_path("/opt/models", Some("/home/u")), "/opt/models");
    assert_eq!(display_help_path("/home/user2/x", Some("/home/u")), "/home/user2/x");
    assert_eq!(display_help_path("/opt/models", None), "/opt/models");
}
