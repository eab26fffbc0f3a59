use fast_transcript::binary64::Binary64;
use fast_transcript::remote::{
    choose_subtitle_extension, direct_transcript, infer_input_source, join_segment_texts,
    json3_event_text, manual_subtitle_plan, pick_manual_subtitle_language, reported_audio_path,
    subtitle_is_vtt, subtitle_languages_in_order, timed_segments, vtt_cues, yt_dlp_audio_args,
    yt_dlp_failure, yt_dlp_info_args, yt_dlp_invocation, yt_dlp_subtitle_args,
    Json3CaptionSegment, SubtitleLanguage,
    SubtitleTimestamp, TimedText, VttCue, YtDlpSubtitleTrack, YtDlpVideoInfo,
};
use fast_transcript::types::{InputSource, TranscriptSegment};
use std::path::PathBuf;

fn rm_bits(x: f64) -> Binary64 {
    Binary64 { bits: x.to_bits() }
}

/// What the command-line tool does with a time stamp's parts: hours and
/// minutes scaled and added to the seconds read as a number.
fn timestamp_seconds(t: &SubtitleTimestamp) -> Option<f64> {
    let seconds = t.seconds.parse::<f64>().ok()?;
    Some(t.hours as f64 * 3600.0 + t.minutes as f64 * 60.0 + seconds)
}

fn parse_vtt_segments(contents: &str) -> Vec<TranscriptSegment> {
    let items: Vec<TimedText> = vtt_cues(contents)
        .iter()
        .map(|cue: &VttCue| TimedText {
            start_s: timestamp_seconds(&cue.start).map(rm_bits),
            end_s: timestamp_seconds(&cue.end).map(rm_bits),
            text: cue.text.clone(),
        })
        .collect();
    timed_segments(&items)
}

fn seg(start: f64, end: f64, text: &str) -> TranscriptSegment {
    TranscriptSegment { start_s: rm_bits(start), end_s: rm_bits(end), text: text.to_string(), speaker: None }
}

#[test]
fn infer_input_source_detects_remote_urls() {
    assert_eq!(
        infer_input_source("https://www.youtube.com/watch?v=QSdh8Gj0mEg"),
        InputSource::RemoteUrl("https://www.youtube.com/watch?v=QSdh8Gj0mEg".to_string())
    );
    let local = infer_input_source("lecture.mp3");
    match local {
        InputSource::LocalPath(p) => assert_eq!(PathBuf::from(p), PathBuf::from("lecture.mp3")),
        InputSource::RemoteUrl(_) => panic!("expected a local path"),
    }
    assert_eq!(
        infer_input_source("http://example.com/a.mp3"),
        InputSource::RemoteUrl("http://example.com/a.mp3".to_string())
    );
    assert_eq!(infer_input_source("ftp://x"), InputSource::LocalPath("ftp://x".to_string()));
}

#[test]
fn pick_manual_subtitle_language_prefers_manual_tracks() {
    let subtitles = vec![
        SubtitleLanguage {
            language: "en".to_string(),
            tracks: vec![YtDlpSubtitleTrack { ext: Some("vtt".to_string()) }],
        },
        SubtitleLanguage {
            language: "pt-BR".to_string(),
            tracks: vec![YtDlpSubtitleTrack { ext: Some("json3".to_string()) }],
        },
    ];
    let info = YtDlpVideoInfo {
        id: Some("abc123".to_string()),
        title: Some("Demo".to_string()),
        subtitles: Some(subtitles),
    };
    assert_eq!(pick_manual_subtitle_language(&info), Some("pt-BR".to_string()));
    assert_eq!(choose_subtitle_extension(&info, "pt-BR"), "json3");
    assert_eq!(choose_subtitle_extension(&info, "en"), "vtt");
    assert_eq!(choose_subtitle_extension(&info, "fr"), "vtt");
}

#[test]
fn pick_manual_subtitle_language_falls_back_to_first_language_with_tracks() {
    let info = YtDlpVideoInfo {
        id: None,
        title: None,
        subtitles: Some(vec![
            SubtitleLanguage { language: "de".to_string(), tracks: vec![] },
            SubtitleLanguage {
                language: "es".to_string(),
                tracks: vec![YtDlpSubtitleTrack { ext: None }],
            },
            SubtitleLanguage { language: "pt".to_string(), tracks: vec![] },
        ]),
    };
    assert_eq!(pick_manual_subtitle_language(&info), Some("es".to_string()));
    let none = YtDlpVideoInfo { id: None, title: None, subtitles: None };
    assert_eq!(pick_manual_subtitle_language(&none), None);
    assert_eq!(choose_subtitle_extension(&none, "en"), "vtt");
}

#[test]
fn parse_vtt_segments_text_strips_headers_and_timestamps() {
    let segments = parse_vtt_segments(
        "WEBVTT\nKind: captions\nLanguage: en\n\n1\n00:00:00.000 --> 00:00:01.000\nHello world\n\n2\n00:00:01.000 --> 00:00:02.000\nSecond line",
    );
    let text = join_segment_texts(&segments);
    assert_eq!(text, "Hello world Second line");
}

#[test]
fn parse_vtt_segments_extracts_timed_cues() {
    let segments = parse_vtt_segments(
        "WEBVTT\n\nintro\n00:00:00.000 --> 00:00:02.500 align:start position:0%\nHello\nworld\n\n00:00:03.000 --> 00:00:04.250\nSecond line",
    );
    assert_eq!(segments, vec![seg(0.0, 2.5, "Hello world"), seg(3.0, 4.25, "Second line")]);
}

#[test]
fn vtt_cues_handle_crlf_minutes_only_and_bad_cues() {
    let cues = vtt_cues("WEBVTT\r\n\r\n01:02,5 --> 01:04.000\r\n  Hi   there \r\n\r\nno arrow here\n\n00:01 --> \ntext\n\nxx:01 --> 00:02\nbad\n\n00:05 --> 00:06\n\n");
    assert_eq!(cues.len(), 1);
    assert_eq!(
        cues[0].start,
        SubtitleTimestamp { hours: 0, minutes: 1, seconds: "02.5".to_string() }
    );
    assert_eq!(cues[0].end, SubtitleTimestamp { hours: 0, minutes: 1, seconds: "04.000".to_string() });
    assert_eq!(cues[0].text, "Hi there");
}

#[test]
fn parse_json3_segments_extracts_timed_cues() {
    let events: Vec<(Option<f64>, Option<f64>, Option<Vec<Json3CaptionSegment>>)> = vec![
        (
            Some(1250.0),
            Some(1750.0),
            Some(vec![
                Json3CaptionSegment { utf8: Some("Hello ".to_string()) },
                Json3CaptionSegment { utf8: Some("world".to_string()) },
            ]),
        ),
        (Some(4000.0), Some(500.0), Some(vec![Json3CaptionSegment { utf8: Some("Second line".to_string()) }])),
    ];
    let items: Vec<TimedText> = events
        .iter()
        .map(|(start_ms, duration_ms, segs)| {
            let times = match (start_ms, duration_ms) {
                (Some(t), Some(d)) => {
                    let start = t / 1000.0;
                    Some((start, start + d / 1000.0))
                }
                _ => None,
            };
            TimedText {
                start_s: times.map(|(s, _)| rm_bits(s)),
                end_s: times.map(|(_, e)| rm_bits(e)),
                text: json3_event_text(segs),
            }
        })
        .collect();
    let segments = timed_segments(&items);
    assert_eq!(segments, vec![seg(1.25, 3.0, "Hello world"), seg(4.0, 4.5, "Second line")]);
}

#[test]
fn json3_text_skips_blank_runs_and_timed_segments_skip_bad_times() {
    let segs = Some(vec![
        Json3CaptionSegment { utf8: Some("\n".to_string()) },
        Json3CaptionSegment { utf8: None },
        Json3CaptionSegment { utf8: Some(" a\tb ".to_string()) },
        Json3CaptionSegment { utf8: Some("   ".to_string()) },
        Json3CaptionSegment { utf8: Some("c".to_string()) },
    ]);
    assert_eq!(json3_event_text(&segs), "a b c");
    assert_eq!(json3_event_text(&None), "");
    let items = vec![
        TimedText { start_s: Some(rm_bits(2.0)), end_s: Some(rm_bits(2.0)), text: "same".to_string() },
        TimedText { start_s: None, end_s: Some(rm_bits(2.0)), text: "missing".to_string() },
        TimedText { start_s: Some(rm_bits(0.0)), end_s: Some(rm_bits(1.0)), text: String::new() },
        TimedText { start_s: Some(rm_bits(0.0)), end_s: Some(rm_bits(1.0)), text: "kept".to_string() },
    ];
    assert_eq!(timed_segments(&items), vec![seg(0.0, 1.0, "kept")]);
}

#[test]
fn direct_transcript_and_tool_output() {
    assert!(direct_transcript(vec![]).is_none());
    let t = direct_transcript(vec![seg(0.0, 1.0, "a"), seg(1.0, 2.0, "b")]).unwrap();
    assert_eq!(t.text, "a b");
    assert_eq!(t.segments.len(), 2);
    assert_eq!(
        reported_audio_path(&b"[download] 100%\n/tmp/x/abc.m4a  \n\n".to_vec()),
        Some("/tmp/x/abc.m4a".to_string())
    );
    assert_eq!(reported_audio_path(&b" \n \n".to_vec()), None);
    let (program, prefix) = yt_dlp_invocation(false, true);
    assert_eq!(program, "uvx");
    assert_eq!(prefix, vec!["yt-dlp".to_string()]);
    let (program, prefix) = yt_dlp_invocation(true, true);
    assert_eq!(program, "yt-dlp");
    assert!(prefix.is_empty());
    assert_eq!(
        yt_dlp_failure("inspecting", "https://x", &b"  ERROR: nope\n".to_vec()),
        "yt-dlp failed while inspecting https://x: ERROR: nope"
    );
}

fn language(code: &str, exts: &[&str]) -> SubtitleLanguage {
    SubtitleLanguage {
        language: code.to_string(),
        tracks: exts.iter().map(|e| YtDlpSubtitleTrack { ext: Some(e.to_string()) }).collect(),
    }
}

#[test]
fn manual_subtitle_plan_names_language_and_format() {
    let info = YtDlpVideoInfo {
        id: None,
        title: None,
        subtitles: Some(vec![language("en", &["vtt"]), language("pt", &["json3", "srv3"])]),
    };
    assert!(subtitle_languages_in_order(&info));
    assert_eq!(manual_subtitle_plan(&info), Some(("pt".to_string(), "json3".to_string())));

    let english = YtDlpVideoInfo {
        id: None,
        title: None,
        subtitles: Some(vec![language("de", &[]), language("en", &["json3", "vtt"])]),
    };
    assert_eq!(manual_subtitle_plan(&english), Some(("en".to_string(), "vtt".to_string())));

    let empty = YtDlpVideoInfo { id: None, title: None, subtitles: Some(vec![language("de", &[])]) };
    assert_eq!(manual_subtitle_plan(&empty), None);
    let none = YtDlpVideoInfo { id: None, title: None, subtitles: None };
    assert_eq!(manual_subtitle_plan(&none), None);
    assert!(subtitle_languages_in_order(&none));
}

#[test]
fn subtitle_languages_must_be_strictly_increasing() {
    let sorted = YtDlpVideoInfo {
        id: None,
        title: None,
        subtitles: Some(vec![language("en", &[]), language("en-US", &[]), language("pt-BR", &[])]),
    };
    assert!(subtitle_languages_in_order(&sorted));
    let reversed = YtDlpVideoInfo {
        id: None,
        title: None,
        subtitles: Some(vec![language("pt", &[]), language("en", &[])]),
    };
    assert!(!subtitle_languages_in_order(&reversed));
    let repeated = YtDlpVideoInfo {
        id: None,
        title: None,
        subtitles: Some(vec![language("en", &[]), language("en", &[])]),
    };
    assert!(!subtitle_languages_in_order(&repeated));
}

#[test]
fn yt_dlp_argument_lists() {
    assert_eq!(
        yt_dlp_info_args("https://x/v"),
        vec!["--dump-single-json", "--no-warnings", "--no-playlist", "https://x/v"]
    );
    assert_eq!(
        yt_dlp_subtitle_args("pt-BR", "vtt", "/tmp/t/%(id)s.%(ext)s", "https://x/v"),
        vec![
            "--no-progress",
            "--no-warnings",
            "--skip-download",
            "--write-subs",
            "--sub-langs",
            "pt-BR",
            "--sub-format",
            "vtt",
            "--no-playlist",
            "--output",
            "/tmp/t/%(id)s.%(ext)s",
            "https://x/v",
        ]
    );
    assert_eq!(
        yt_dlp_audio_args("/tmp/t/%(id)s.%(ext)s", "https://x/v"),
        vec![
            "--no-progress",
            "--no-warnings",
            "--no-playlist",
            "-f",
            "bestaudio/best",
            "--output",
            "/tmp/t/%(id)s.%(ext)s",
            "--print",
            "after_move:filepath",
            "https://x/v",
        ]
    );
    assert!(subtitle_is_vtt("vtt"));
    assert!(!subtitle_is_vtt("json3"));
}
