use fast_transcript::binary64::Binary64;
use fast_transcript::output::{
    clean_pathological_repeated_words, emit_file_output_completion, format_hhmmss,
    format_subtitle_timestamp, normalize_speaker_label, render_output, render_speaker_lines,
    repeated_word_threshold, RenderedOutput,
};
use fast_transcript::paths::{
    default_output_path, default_output_path_for_input, output_file_name, sanitize_file_stem,
};
use fast_transcript::types::{
    BenchmarkResult, InputSource, OutputFormat, SpeakersFormat, SubtitleFormat, TextFormat,
    TranscriptSegment,
};
use std::path::PathBuf;

fn out_bits(x: f64) -> Binary64 {
    Binary64 { bits: x.to_bits() }
}

fn seg(start: f64, end: f64, text: &str, speaker: Option<&str>) -> TranscriptSegment {
    TranscriptSegment {
        start_s: out_bits(start),
        end_s: out_bits(end),
        text: text.to_string(),
        speaker: speaker.map(|s| s.to_string()),
    }
}

fn sample_result(segments: Vec<TranscriptSegment>) -> BenchmarkResult {
    let text = segments.iter().map(|segment| segment.text.as_str()).collect::<Vec<_>>().join(" ");
    BenchmarkResult {
        input_source: "input".to_string(),
        model_dir: "model".to_string(),
        audio_path: "audio".to_string(),
        prepared_audio_path: "prepared".to_string(),
        used_ffmpeg_normalization: false,
        used_local_model: true,
        transcript_source: "local-audio-local-model".to_string(),
        audio_seconds: out_bits(10.0),
        load_seconds: out_bits(1.0),
        transcribe_seconds: out_bits(1.0),
        total_inside_seconds: out_bits(2.0),
        seconds_per_audio_second: out_bits(0.2),
        realtime_speedup: out_bits(5.0),
        text,
        chunk_seconds: Some(out_bits(120.0)),
        chunk_overlap_seconds: out_bits(2.0),
        chunk_count: 1,
        chunks: vec![],
        segments: Some(segments),
        speaker_diarization: None,
    }
}

fn rendered_text(r: RenderedOutput) -> String {
    match r {
        RenderedOutput::Text(t) => t,
        RenderedOutput::Json(_) => panic!("expected text output"),
    }
}

#[test]
fn default_output_path_stays_next_to_source_audio() {
    let output = default_output_path("/tmp/folder/audio.file.mp3", OutputFormat::Json);
    assert_eq!(PathBuf::from(output), PathBuf::from("/tmp/folder/audio.file.transcript.json"));
}

#[test]
fn default_speakers_output_path_uses_speakers_extension() {
    let output = default_output_path(
        "/tmp/folder/audio.file.mp3",
        OutputFormat::Speakers(SpeakersFormat::Timestamped),
    );
    assert_eq!(PathBuf::from(output), PathBuf::from("/tmp/folder/audio.file.speakers.txt"));
}

#[test]
fn default_text_output_path_uses_transcript_text_extension() {
    let output =
        default_output_path("/tmp/folder/audio.file.mp3", OutputFormat::Text(TextFormat::Plain));
    assert_eq!(PathBuf::from(output), PathBuf::from("/tmp/folder/audio.file.transcript.txt"));
}

#[test]
fn default_srt_output_path_uses_srt_extension() {
    let output = default_output_path(
        "/tmp/folder/audio.file.mp3",
        OutputFormat::Subtitle(SubtitleFormat::Srt),
    );
    assert_eq!(PathBuf::from(output), PathBuf::from("/tmp/folder/audio.file.srt"));
}

#[test]
fn default_vtt_output_path_uses_vtt_extension() {
    let output = default_output_path(
        "/tmp/folder/audio.file.mp3",
        OutputFormat::Subtitle(SubtitleFormat::Vtt),
    );
    assert_eq!(PathBuf::from(output), PathBuf::from("/tmp/folder/audio.file.vtt"));
}

#[test]
fn default_output_path_for_remote_url_uses_video_title() {
    let output = default_output_path_for_input(
        &InputSource::RemoteUrl("https://youtu.be/demo".to_string()),
        Some("TED Talk: Future / Now"),
        OutputFormat::Json,
    );
    assert_eq!(PathBuf::from(output), PathBuf::from("TED_Talk_Future_Now.transcript.json"));
}

#[test]
fn default_speakers_output_path_for_remote_url_uses_video_title() {
    let output = default_output_path_for_input(
        &InputSource::RemoteUrl("https://youtu.be/demo".to_string()),
        Some("TED Talk: Future / Now"),
        OutputFormat::Speakers(SpeakersFormat::Timestamped),
    );
    assert_eq!(PathBuf::from(output), PathBuf::from("TED_Talk_Future_Now.speakers.txt"));
}

#[test]
fn default_text_output_path_for_remote_url_uses_video_title() {
    let output = default_output_path_for_input(
        &InputSource::RemoteUrl("https://youtu.be/demo".to_string()),
        Some("TED Talk: Future / Now"),
        OutputFormat::Text(TextFormat::Plain),
    );
    assert_eq!(PathBuf::from(output), PathBuf::from("TED_Talk_Future_Now.transcript.txt"));
}

#[test]
fn default_srt_output_path_for_remote_url_uses_video_title() {
    let output = default_output_path_for_input(
        &InputSource::RemoteUrl("https://youtu.be/demo".to_string()),
        Some("TED Talk: Future / Now"),
        OutputFormat::Subtitle(SubtitleFormat::Srt),
    );
    assert_eq!(PathBuf::from(output), PathBuf::from("TED_Talk_Future_Now.srt"));
}

#[test]
fn default_vtt_output_path_for_remote_url_uses_video_title() {
    let output = default_output_path_for_input(
        &InputSource::RemoteUrl("https://youtu.be/demo".to_string()),
        Some("TED Talk: Future / Now"),
        OutputFormat::Subtitle(SubtitleFormat::Vtt),
    );
    assert_eq!(PathBuf::from(output), PathBuf::from("TED_Talk_Future_Now.vtt"));
}

#[test]
fn default_output_path_falls_back_to_url_and_transcript_stem() {
    let output = default_output_path_for_input(
        &InputSource::RemoteUrl("https://youtu.be/demo".to_string()),
        Some("   "),
        OutputFormat::Json,
    );
    assert_eq!(output, "https_youtu.be_demo.transcript.json");
    assert_eq!(sanitize_file_stem("///"), "transcript");
    assert_eq!(sanitize_file_stem("__a  b__"), "a_b");
    assert_eq!(output_file_name(None, OutputFormat::Json), "transcript.transcript.json");
    assert_eq!(
        PathBuf::from(default_output_path_for_input(
            &InputSource::LocalPath("lecture.mp3".to_string()),
            None,
            OutputFormat::Speakers(SpeakersFormat::Plain),
        )),
        PathBuf::from("lecture.speakers.txt")
    );
}

#[test]
fn emit_file_output_completion_sends_path_to_stdout_and_status_to_stderr() {
    let mut stdout: Vec<u8> = Vec::new();
    let mut stderr: Vec<u8> = Vec::new();
    emit_file_output_completion(
        &mut stdout,
        &mut stderr,
        "/tmp/example.transcript.json",
        "done in 11.11x real-time",
    );
    assert_eq!(String::from_utf8(stdout).unwrap(), "/tmp/example.transcript.json\n");
    assert_eq!(String::from_utf8(stderr).unwrap(), "done in 11.11x real-time\n");
}

#[test]
fn normalize_speaker_label_formats_simple_labels() {
    assert_eq!(normalize_speaker_label("S1", "UNKNOWN"), "SPEAKER_01");
    assert_eq!(normalize_speaker_label("SPEAKER_2", "UNKNOWN"), "SPEAKER_02");
    assert_eq!(normalize_speaker_label("", "UNKNOWN"), "UNKNOWN");
    assert_eq!(normalize_speaker_label("Speaker 0", "UNKNOWN"), "Speaker 0");
}

#[test]
fn format_hhmmss_truncates_to_whole_seconds() {
    assert_eq!(format_hhmmss(out_bits(0.0)), "00:00:00");
    assert_eq!(format_hhmmss(out_bits(65.9)), "00:01:05");
    assert_eq!(format_hhmmss(out_bits(3_661.2)), "01:01:01");
}

#[test]
fn format_subtitle_timestamp_rounds_to_milliseconds() {
    assert_eq!(format_subtitle_timestamp(out_bits(1.25), ','), "00:00:01,250");
    assert_eq!(format_subtitle_timestamp(out_bits(0.0005), '.'), "00:00:00.001");
    assert_eq!(format_subtitle_timestamp(out_bits(3_723.4567), '.'), "01:02:03.457");
    assert_eq!(format_subtitle_timestamp(out_bits(-3.0), ','), "00:00:00,000");
    assert_eq!(format_subtitle_timestamp(out_bits(f64::NAN), ','), "00:00:00,000");
    assert_eq!(format_hhmmss(out_bits(f64::INFINITY)), "00:00:00");
}

#[test]
fn render_speaker_lines_merges_consecutive_turns() {
    let segments = vec![
        seg(5.0, 6.0, "Oi.", Some("S1")),
        seg(6.0, 7.0, "Tudo bem?", Some("S1")),
        seg(8.0, 9.0, "Tudo.", Some("S2")),
    ];
    assert_eq!(
        render_speaker_lines(&segments, SpeakersFormat::Plain, true),
        vec!["SPEAKER_01: Oi. Tudo bem?".to_string(), "SPEAKER_02: Tudo.".to_string()]
    );
}

#[test]
fn render_speaker_lines_can_include_timestamps() {
    let segments = vec![
        seg(65.9, 67.0, "Primeira.", Some("S1")),
        seg(68.0, 70.0, "Segunda.", Some("S1")),
    ];
    assert_eq!(
        render_speaker_lines(&segments, SpeakersFormat::Timestamped, false),
        vec![
            "00:01:05 - SPEAKER_01: Primeira.".to_string(),
            "00:01:08 - SPEAKER_01: Segunda.".to_string(),
        ]
    );
}

#[test]
fn render_speaker_lines_omits_unknown_label_when_diarization_is_absent() {
    let segments = vec![seg(65.9, 67.0, "Primeira.", None)];
    assert_eq!(
        render_speaker_lines(&segments, SpeakersFormat::Timestamped, false),
        vec!["00:01:05 - Primeira.".to_string()]
    );
}

#[test]
fn repeated_word_threshold_is_conservative() {
    assert_eq!(repeated_word_threshold("we"), Some(4));
    assert_eq!(repeated_word_threshold("uh"), Some(4));
    assert_eq!(repeated_word_threshold("for"), Some(5));
    assert_eq!(repeated_word_threshold("bitcoin"), None);
}

#[test]
fn clean_pathological_repeated_words_collapses_obvious_runs() {
    assert_eq!(
        clean_pathological_repeated_words(
            "So we we we we we we didn't have time and uh uh uh uh to fix it."
        ),
        "So we... we didn't have time and uh... uh to fix it."
    );
}

#[test]
fn clean_pathological_repeated_words_leaves_normal_repetition_alone() {
    assert_eq!(
        clean_pathological_repeated_words("no no no maybe bitcoin bitcoin"),
        "no no no maybe bitcoin bitcoin"
    );
}

#[test]
fn clean_keeps_ordinary_text_but_collapses_its_spacing() {
    assert_eq!(
        clean_pathological_repeated_words("  we  we we\tkeep   going "),
        "we we we keep going"
    );
    assert_eq!(clean_pathological_repeated_words("(We) we, WE we! we?"), "(We... we?");
    assert_eq!(clean_pathological_repeated_words(""), "");
}

#[test]
fn render_output_supports_plain_text() {
    let result = sample_result(vec![
        seg(0.0, 1.0, "Primeira frase.", None),
        seg(1.0, 2.0, "Segunda frase.", None),
    ]);
    assert_eq!(
        rendered_text(render_output(&result, OutputFormat::Text(TextFormat::Plain), false)),
        "Primeira frase.\nSegunda frase."
    );
}

#[test]
fn render_output_plain_text_falls_back_to_result_text_without_segments() {
    let result = BenchmarkResult {
        input_source: "input.wav".to_string(),
        model_dir: "model".to_string(),
        audio_path: "input.wav".to_string(),
        prepared_audio_path: "input.wav".to_string(),
        used_ffmpeg_normalization: false,
        used_local_model: true,
        transcript_source: "local".to_string(),
        audio_seconds: out_bits(1.0),
        load_seconds: out_bits(0.1),
        transcribe_seconds: out_bits(0.2),
        total_inside_seconds: out_bits(0.3),
        seconds_per_audio_second: out_bits(0.3),
        realtime_speedup: out_bits(3.33),
        text: "Primeira frase.\nSegunda frase.".to_string(),
        chunk_seconds: None,
        chunk_overlap_seconds: out_bits(0.0),
        chunk_count: 1,
        chunks: vec![],
        segments: None,
        speaker_diarization: None,
    };
    assert_eq!(
        rendered_text(render_output(&result, OutputFormat::Text(TextFormat::Plain), false)),
        "Primeira frase.\nSegunda frase."
    );
}

#[test]
fn render_output_supports_compact_text() {
    let result = sample_result(vec![
        seg(0.0, 1.0, "Primeira frase.", None),
        seg(1.0, 2.0, "Segunda frase.", None),
    ]);
    assert_eq!(
        rendered_text(render_output(&result, OutputFormat::Text(TextFormat::Compact), false)),
        "Primeira frase. Segunda frase."
    );
}

#[test]
fn render_output_supports_timestamped_text() {
    let result = sample_result(vec![
        seg(5.0, 6.0, "Primeira frase.", None),
        seg(65.9, 67.0, "Segunda frase.", None),
    ]);
    assert_eq!(
        rendered_text(render_output(&result, OutputFormat::Text(TextFormat::Timestamped), false)),
        "00:00:05 - Primeira frase.\n00:01:05 - Segunda frase."
    );
}

#[test]
fn render_output_supports_srt_subtitles() {
    let result = sample_result(vec![
        seg(1.25, 3.0, "Hello world", Some("S1")),
        seg(4.0, 4.5, "Second line", None),
    ]);
    assert_eq!(
        rendered_text(render_output(&result, OutputFormat::Subtitle(SubtitleFormat::Srt), false)),
        "1\n00:00:01,250 --> 00:00:03,000\nSPEAKER_01: Hello world\n\n2\n00:00:04,000 --> 00:00:04,500\nSecond line"
    );
}

#[test]
fn render_output_supports_vtt_subtitles() {
    let result = sample_result(vec![seg(1.25, 3.0, "Hello world", Some("S1"))]);
    assert_eq!(
        rendered_text(render_output(&result, OutputFormat::Subtitle(SubtitleFormat::Vtt), false)),
        "WEBVTT\n\n00:00:01.250 --> 00:00:03.000\nSPEAKER_01: Hello world"
    );
}

#[test]
fn render_output_can_clean_textual_repetition() {
    let result =
        sample_result(vec![seg(1.25, 3.0, "So we we we we we didn't have time.", Some("S1"))]);
    assert_eq!(
        rendered_text(render_output(&result, OutputFormat::Text(TextFormat::Plain), true)),
        "So we... we didn't have time."
    );
    match render_output(&result, OutputFormat::Json, true) {
        RenderedOutput::Json(cleaned) => {
            assert_eq!(cleaned.text, "So we... we didn't have time.");
            assert_eq!(
                cleaned.segments.unwrap()[0].text,
                "So we... we didn't have time.".to_string()
            );
        }
        RenderedOutput::Text(_) => panic!("expected the report for JSON output"),
    }
}

#[test]
fn render_output_can_clean_speakers_output() {
    let result =
        sample_result(vec![seg(65.9, 67.0, "So we we we we we didn't have time.", Some("S1"))]);
    assert_eq!(
        rendered_text(render_output(
            &result,
            OutputFormat::Speakers(SpeakersFormat::Timestamped),
            true
        )),
        "00:01:05 - SPEAKER_01: So we... we didn't have time."
    );
}

#[test]
fn render_output_can_clean_srt_subtitles() {
    let result =
        sample_result(vec![seg(1.25, 3.0, "So we we we we we didn't have time.", Some("S1"))]);
    assert_eq!(
        rendered_text(render_output(&result, OutputFormat::Subtitle(SubtitleFormat::Srt), true)),
        "1\n00:00:01,250 --> 00:00:03,000\nSPEAKER_01: So we... we didn't have time."
    );
}

#[test]
fn render_output_can_clean_vtt_subtitles() {
    let result =
        sample_result(vec![seg(1.25, 3.0, "So we we we we we didn't have time.", Some("S1"))]);
    assert_eq!(
        rendered_text(render_output(&result, OutputFormat::Subtitle(SubtitleFormat::Vtt), true)),
        "WEBVTT\n\n00:00:01.250 --> 00:00:03.000\nSPEAKER_01: So we... we didn't have time."
    );
}

#[test]
fn cleaning_cleaned_text_changes_nothing() {
    for text in [
        "we we we we we we go",
        "(the the the the the) end",
        "um um um um, so\n\t ok ok ok ok ok ok",
        "-- -- -- -- -- plain",
        "no no no maybe",
    ] {
        let once = clean_pathological_repeated_words(text);
        assert_eq!(clean_pathological_repeated_words(&once), once);
    }
    assert_eq!(clean_pathological_repeated_words("we we we we we we go"), "we... we go");
}

#[test]
fn merged_speaker_lines_stamp_each_turn_with_its_first_segment() {
    let unlabelled = vec![seg(65.9, 67.0, "Primeira.", None), seg(68.0, 70.0, "Segunda.", None)];
    assert_eq!(
        render_speaker_lines(&unlabelled, SpeakersFormat::Timestamped, true),
        vec!["00:01:05 - Primeira. Segunda.".to_string()]
    );
    let labelled = vec![
        seg(3.0, 4.0, "   ", None),
        seg(65.9, 67.0, "Primeira.", Some("S1")),
        seg(68.0, 70.0, "Segunda.", Some("S1")),
        seg(125.0, 126.0, "Outra.", Some("S2")),
    ];
    assert_eq!(
        render_speaker_lines(&labelled, SpeakersFormat::Timestamped, true),
        vec![
            "00:01:05 - SPEAKER_01: Primeira. Segunda.".to_string(),
            "00:02:05 - SPEAKER_02: Outra.".to_string(),
        ]
    );
}
