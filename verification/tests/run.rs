use fast_transcript::binary64::Binary64;
use fast_transcript::cli::CliDefaults;
use fast_transcript::diarization::FluidaudioBinaryStatus;
use fast_transcript::model::{is_appledouble_name, required_model_paths};
use fast_transcript::remote::{DirectTranscript, YtDlpVideoInfo};
use fast_transcript::types::TranscriptSegment;
use fast_transcript::{
    bytes_to_args, fuzz_parse_args, manual_subtitle_result, title_hint, top_level_request,
    TopLevelRequest,
};

#[test]
fn top_level_request_detects_help_and_version() {
    let args = |v: &[&str]| v.iter().map(|s| s.to_string()).collect::<Vec<_>>();
    assert_eq!(top_level_request(&args(&["a.wav", "-V", "--help"])), TopLevelRequest::Help);
    assert_eq!(top_level_request(&args(&["a.wav", "--version"])), TopLevelRequest::Version);
    assert_eq!(top_level_request(&args(&["a.wav", "-h"])), TopLevelRequest::Help);
    assert_eq!(top_level_request(&args(&["a.wav", "--helpx"])), TopLevelRequest::Run);
}

#[test]
fn bytes_to_args_splits_fuzz_input() {
    assert_eq!(bytes_to_args(b""), vec!["audio.wav".to_string()]);
    assert_eq!(bytes_to_args(b"a.wav\n--json\n\n  \n-D"), vec!["a.wav", "--json", "-D"]);
    assert_eq!(bytes_to_args(b"a b\0 --text\nx\0"), vec!["a b", "--text\nx"]);
    let long = vec![b'x'; 100];
    assert_eq!(bytes_to_args(&long), vec!["x".repeat(64)]);
    let many = b"1\n2\n3\n4\n5\n6\n7\n8\n9\n10\n11\n12\n13\n14\n15\n16\n17\n18".to_vec();
    assert_eq!(bytes_to_args(&many).len(), 16);
    assert_eq!(bytes_to_args(&[0xff, b'a']), vec!["\u{fffd}a".to_string()]);
}

#[test]
fn fuzz_parse_args_refuses_or_parses_without_panicking() {
    let defaults = CliDefaults {
        model_dir: "m".to_string(),
        model_package: "p".to_string(),
        model_url: "u".to_string(),
        usage: "usage".to_string(),
    };
    for data in [&b"a.wav\n-Z"[..], b"", b"a.wav\n--chunk\nnan", b"--threshold\0-1\0x"] {
        let args = bytes_to_args(data);
        let numbers: Vec<Option<u64>> =
            args.iter().map(|a| a.parse::<f64>().ok().map(f64::to_bits)).collect();
        let _ = fuzz_parse_args(&args, &numbers, &FluidaudioBinaryStatus::Available, &defaults);
    }
    let args = vec!["a.wav".to_string(), "-Z".to_string()];
    let numbers = vec![None, None];
    assert!(fuzz_parse_args(&args, &numbers, &FluidaudioBinaryStatus::Available, &defaults)
        .unwrap_err()
        .contains("unknown argument \"-Z\""));
}

#[test]
fn manual_subtitle_result_uses_platform_subtitles() {
    let segment = TranscriptSegment {
        start_s: Binary64 { bits: 1.0f64.to_bits() },
        end_s: Binary64 { bits: 2.0f64.to_bits() },
        text: "hello".to_string(),
        speaker: None,
    };
    let result = manual_subtitle_result(
        "https://x",
        DirectTranscript { text: "hello".to_string(), segments: vec![segment.clone()] },
    );
    assert_eq!(result.transcript_source, "remote-manual-subtitle");
    assert!(!result.used_local_model);
    assert_eq!(result.chunk_count, 1);
    assert_eq!(result.chunks[0].text, "hello");
    assert_eq!(result.segments, Some(vec![segment]));
    let empty = manual_subtitle_result("u", DirectTranscript { text: "t".to_string(), segments: vec![] });
    assert_eq!(empty.segments, None);
    let info = YtDlpVideoInfo { id: Some("id1".to_string()), title: None, subtitles: None };
    assert_eq!(title_hint(&info), Some("id1".to_string()));
}

#[test]
fn model_files_and_resource_forks() {
    assert_eq!(
        required_model_paths("/m"),
        vec![
            "/m/encoder-model.int8.onnx",
            "/m/decoder_joint-model.int8.onnx",
            "/m/nemo128.onnx",
            "/m/vocab.txt",
        ]
    );
    assert!(is_appledouble_name("._encoder-model.int8.onnx"));
    assert!(!is_appledouble_name("encoder-model.int8.onnx"));
}
