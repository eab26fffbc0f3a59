use fast_transcript::progress::{
    render_chunk_progress, render_chunk_progress_done, render_noninteractive_chunk,
    render_noninteractive_done, render_noninteractive_start, spinner_frame, ChunkProgressReporter,
};

#[test]
fn render_chunk_progress_formats_spinner_and_bar() {
    let rendered = render_chunk_progress("⠟", 12, 23);
    assert_eq!(rendered, "⠟ █████████▒▒▒▒▒▒▒▒▒▒▒ transcribing chunk 12/23");
}

#[test]
fn render_chunk_progress_done_shows_complete_bar() {
    let rendered = render_chunk_progress_done(23);
    assert_eq!(rendered, "✓ ████████████████████ transcribing chunk 23/23");
}

#[test]
fn noninteractive_progress_messages_are_coarse_and_final() {
    assert_eq!(render_noninteractive_start(3), "transcribing 3 chunks...");
    assert_eq!(render_noninteractive_chunk(2, 3), "transcribing chunk 2/3");
    assert_eq!(render_noninteractive_done(3), "done transcribing 3 chunks");
}

#[test]
fn render_chunk_progress_handles_edges() {
    assert_eq!(render_chunk_progress("x", 1, 0), "x ████████████████████ transcribing chunk 1/0");
    assert_eq!(render_chunk_progress("x", 0, 4), "x ▒▒▒▒▒▒▒▒▒▒▒▒▒▒▒▒▒▒▒▒ transcribing chunk 0/4");
    assert_eq!(render_chunk_progress("x", 9, 4), "x ████████████████████ transcribing chunk 9/4");
    assert_eq!(spinner_frame(0), "⠋");
    assert_eq!(spinner_frame(11), "⠙");
}

#[test]
fn chunk_progress_reporter_noninteractive_lifecycle_uses_no_thread() {
    let (mut reporter, start) = ChunkProgressReporter::start_with_terminal(3, false);
    assert!(!reporter.interactive);
    assert_eq!(start, Some("transcribing 3 chunks...".to_string()));
    assert_eq!(reporter.set_current_chunk(2), Some("transcribing chunk 2/3".to_string()));
    assert_eq!(reporter.set_current_chunk(7), Some("transcribing chunk 3/3".to_string()));
    assert_eq!(reporter.finish(), "done transcribing 3 chunks");
}

#[test]
fn chunk_progress_reporter_interactive_lifecycle_joins_thread() {
    let (mut reporter, start) = ChunkProgressReporter::start_with_terminal(2, true);
    assert!(reporter.interactive);
    assert_eq!(start, None);
    assert_eq!(reporter.set_current_chunk(2), None);
    assert_eq!(reporter.frame_line(3), "⠸ ██████████▒▒▒▒▒▒▒▒▒▒ transcribing chunk 2/2");
    assert_eq!(reporter.finish(), "✓ ████████████████████ transcribing chunk 2/2");
    assert_eq!(reporter.current_chunk, 2);
}
