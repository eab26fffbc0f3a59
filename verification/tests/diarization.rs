use fast_transcript::binary64::Binary64;
use fast_transcript::diarization::{
    binary_lookup, configured_fluidaudio_binary, diarization_metadata, fluidaudio_binary_status,
    parse_diarization_output, should_skip_diarization_error, BinaryLookup, CommandOutcome,
    DiarizationBackend, DiarizationRequest, DiarizationResult, DiarizationSegment,
    FluidAudioDiarizer, FluidAudioOutput, FluidAudioSegment, FluidaudioBinaryStatus,
    SpeakerDiarizationMetadata,
};

fn dz_bits(x: f64) -> Binary64 {
    Binary64 { bits: x.to_bits() }
}

fn raw_turn(start: f64, end: f64, speaker_id: Option<&str>, speaker: Option<&str>) -> FluidAudioSegment {
    FluidAudioSegment {
        start_time_seconds: dz_bits(start),
        end_time_seconds: dz_bits(end),
        speaker_id: speaker_id.map(|s| s.to_string()),
        speaker: speaker.map(|s| s.to_string()),
    }
}

#[test]
fn parse_diarization_output_normalizes_segments() {
    let parsed = parse_diarization_output(&FluidAudioOutput {
        speaker_count: Some(2),
        segments: vec![
            raw_turn(0.0, 1.5, Some("S1"), None),
            raw_turn(1.5, 3.0, Some("S2"), None),
            raw_turn(4.0, 4.0, Some("skip-me"), None),
        ],
    });
    assert_eq!(parsed.speaker_count, Some(2));
    assert_eq!(
        parsed.segments,
        vec![
            DiarizationSegment { start_s: dz_bits(0.0), end_s: dz_bits(1.5), speaker: "S1".to_string() },
            DiarizationSegment { start_s: dz_bits(1.5), end_s: dz_bits(3.0), speaker: "S2".to_string() },
        ]
    );
}

#[test]
fn parse_diarization_output_supports_lseend_speaker_field() {
    let parsed = parse_diarization_output(&FluidAudioOutput {
        speaker_count: None,
        segments: vec![
            raw_turn(0.0, 1.5, None, Some("Speaker 0")),
            raw_turn(1.5, 3.0, None, Some("Speaker 1")),
        ],
    });
    assert_eq!(parsed.speaker_count, None);
    assert_eq!(parsed.segments.len(), 2);
    assert_eq!(parsed.segments[0].speaker, "Speaker 0");
    assert_eq!(parsed.segments[1].speaker, "Speaker 1");
}

#[test]
fn parse_diarization_output_drops_blank_labels_and_prefers_speaker_id() {
    let parsed = parse_diarization_output(&FluidAudioOutput {
        speaker_count: Some(1),
        segments: vec![
            raw_turn(0.0, 1.0, Some("  "), Some("ignored")),
            raw_turn(1.0, 2.0, Some(" S3 "), Some("other")),
            raw_turn(2.0, 1.0, Some("S4"), None),
            raw_turn(3.0, 4.0, None, None),
        ],
    });
    assert_eq!(
        parsed.segments,
        vec![DiarizationSegment { start_s: dz_bits(1.0), end_s: dz_bits(2.0), speaker: "S3".to_string() }]
    );
}

#[test]
fn fluidaudio_diarizer_returns_clear_error_when_binary_is_missing() {
    let diarizer = FluidAudioDiarizer::new(Some("fluidaudiocli".to_string()));
    let err = diarizer.run_error(DiarizationBackend::Coreml, &CommandOutcome::NotFound).unwrap();
    assert!(err.contains(
        "speaker diarization requested, but `fluidaudiocli` is not available as an executable"
    ));
    assert_eq!(
        err,
        "speaker diarization requested, but `fluidaudiocli` is not available as an executable. Install FluidInference/speaker-diarization-coreml via fluidaudiocli process --mode offline or point FSCRIPT_DIARIZATION_BINARY at a working fluidaudiocli binary."
    );
}

#[test]
fn fluidaudio_diarizer_passes_num_speakers_to_backend() {
    let diarizer = FluidAudioDiarizer::new(None);
    assert_eq!(diarizer.binary, "fluidaudiocli");
    let request = DiarizationRequest {
        backend: DiarizationBackend::Coreml,
        num_speakers: Some(2),
        threshold: None,
    };
    let seen_args = diarizer.command_args("/tmp/audio.wav", "/tmp/out/diarization.json", &request, None);
    assert_eq!(&seen_args[0..5], ["process", "/tmp/audio.wav", "--mode", "offline", "--output"]);
    assert_eq!(seen_args[5], "/tmp/out/diarization.json");
    assert_eq!(seen_args[6], "--num-speakers");
    assert_eq!(seen_args[7], "2");
    assert_eq!(seen_args.len(), 8);
    let success = CommandOutcome::Exited { success: true, stderr: Vec::new() };
    assert_eq!(diarizer.run_error(request.backend, &success), None);
    let result = parse_diarization_output(&FluidAudioOutput {
        speaker_count: Some(2),
        segments: vec![raw_turn(0.0, 1.0, Some("S1"), None)],
    });
    assert_eq!(result.speaker_count, Some(2));
    assert_eq!(result.segments.len(), 1);
}

#[test]
fn fluidaudio_diarizer_can_run_lseend_backend_with_threshold() {
    let diarizer = FluidAudioDiarizer::new(Some("fluidaudiocli".to_string()));
    let request = DiarizationRequest {
        backend: DiarizationBackend::LseendDihard3,
        num_speakers: None,
        threshold: Some(dz_bits(0.3)),
    };
    let threshold_text = request.threshold.map(|t| f64::from_bits(t.bits).to_string());
    let seen_args =
        diarizer.command_args("/tmp/audio.wav", "/tmp/out/diarization.json", &request, threshold_text);
    assert_eq!(&seen_args[0..5], ["lseend", "/tmp/audio.wav", "--variant", "dihard3", "--output"]);
    assert_eq!(seen_args[6], "--threshold");
    assert_eq!(seen_args[7], "0.3");
    let result = parse_diarization_output(&FluidAudioOutput {
        speaker_count: None,
        segments: vec![raw_turn(0.0, 1.0, None, Some("Speaker 0"))],
    });
    assert_eq!(result.segments[0].speaker, "Speaker 0");
}

#[test]
fn maybe_diarize_segments_skips_no_speech_backend_failures() {
    let diarizer = FluidAudioDiarizer::new(Some("fluidaudiocli".to_string()));
    let outcome = CommandOutcome::Exited {
        success: false,
        stderr: b"ERROR: Failed to process audio file (offline mode): noSpeechDetected\n".to_vec(),
    };
    let err = diarizer.run_error(DiarizationBackend::Coreml, &outcome).unwrap();
    assert_eq!(
        err,
        "speaker diarization failed via `fluidaudiocli`: ERROR: Failed to process audio file (offline mode): noSpeechDetected"
    );
    assert!(should_skip_diarization_error(&err));
}

#[test]
fn maybe_diarize_segments_invokes_backend_and_attaches_metadata() {
    let request = DiarizationRequest {
        backend: DiarizationBackend::Coreml,
        num_speakers: Some(2),
        threshold: None,
    };
    let result = DiarizationResult {
        speaker_count: Some(2),
        segments: vec![
            DiarizationSegment { start_s: dz_bits(0.0), end_s: dz_bits(1.0), speaker: "S1".to_string() },
            DiarizationSegment { start_s: dz_bits(1.0), end_s: dz_bits(2.0), speaker: "S2".to_string() },
        ],
    };
    assert_eq!(
        diarization_metadata(&request, &result),
        SpeakerDiarizationMetadata {
            backend: "FluidInference/speaker-diarization-coreml via fluidaudiocli process --mode offline"
                .to_string(),
            requested_num_speakers: Some(2),
            detected_speaker_count: Some(2),
            segment_count: 2,
        }
    );
}

#[test]
fn skip_diarization_error_matches_no_speech_variants() {
    assert!(should_skip_diarization_error("noSpeechDetected"));
    assert!(should_skip_diarization_error("No speech detected while clustering"));
    assert!(!should_skip_diarization_error("model download failed"));
}

#[test]
fn configured_binary_lookup_and_status() {
    assert_eq!(configured_fluidaudio_binary(None), "fluidaudiocli");
    assert_eq!(configured_fluidaudio_binary(Some("/opt/fa".to_string())), "/opt/fa");
    assert_eq!(binary_lookup("/definitely/missing/fluidaudiocli"), BinaryLookup::ExecutableFile);
    assert_eq!(binary_lookup("fluidaudiocli"), BinaryLookup::SearchPath);
    assert_eq!(fluidaudio_binary_status(None, true), FluidaudioBinaryStatus::Available);
    assert_eq!(fluidaudio_binary_status(None, false), FluidaudioBinaryStatus::MissingDefaultBinary);
    assert_eq!(
        fluidaudio_binary_status(Some("/definitely/missing/fluidaudiocli".to_string()), false),
        FluidaudioBinaryStatus::InvalidConfiguredBinaryPath {
            binary: "/definitely/missing/fluidaudiocli".to_string()
        }
    );
    assert_eq!(
        fluidaudio_binary_status(Some("custom-fluidaudiocli".to_string()), false),
        FluidaudioBinaryStatus::MissingConfiguredBinaryOnPath {
            binary: "custom-fluidaudiocli".to_string()
        }
    );
}

#[test]
fn diarization_backend_names_and_values() {
    assert_eq!(DiarizationBackend::from_cli_value("coreml"), Some(DiarizationBackend::Coreml));
    assert_eq!(
        DiarizationBackend::from_cli_value("lseend-dihard3"),
        Some(DiarizationBackend::LseendDihard3)
    );
    assert_eq!(DiarizationBackend::from_cli_value("none"), None);
    assert_eq!(
        DiarizationBackend::LseendDihard3.backend_name(),
        "FluidInference/ls-eend-coreml dihard3 via fluidaudiocli lseend"
    );
    let diarizer = FluidAudioDiarizer::new(Some("fa".to_string()));
    assert_eq!(
        diarizer.run_error(DiarizationBackend::Coreml, &CommandOutcome::SpawnFailed),
        Some("failed to run `fa` for speaker diarization".to_string())
    );
}

#[test]
fn diarize_outcome_reports_the_helper_failure_before_the_payload() {
    let diarizer = FluidAudioDiarizer::new(Some("fluidaudiocli".to_string()));
    let payload = FluidAudioOutput {
        speaker_count: Some(1),
        segments: vec![raw_turn(0.0, 1.0, Some("S1"), None)],
    };
    let failed = CommandOutcome::Exited { success: false, stderr: b"  boom \n".to_vec() };
    let err = diarizer
        .diarize_outcome(DiarizationBackend::Coreml, &failed, Ok(payload.clone()))
        .unwrap_err();
    assert_eq!(err, "speaker diarization failed via `fluidaudiocli`: boom");

    let err = diarizer
        .diarize_outcome(DiarizationBackend::Coreml, &CommandOutcome::NotFound, Ok(payload.clone()))
        .unwrap_err();
    assert!(err.contains("is not available as an executable"));

    let ok = CommandOutcome::Exited { success: true, stderr: Vec::new() };
    let result = diarizer
        .diarize_outcome(DiarizationBackend::Coreml, &ok, Ok(payload))
        .unwrap();
    assert_eq!(result.speaker_count, Some(1));
    assert_eq!(
        result.segments,
        vec![DiarizationSegment { start_s: dz_bits(0.0), end_s: dz_bits(1.0), speaker: "S1".to_string() }]
    );

    let err = diarizer
        .diarize_outcome(
            DiarizationBackend::Coreml,
            &ok,
            Err("failed to parse diarization JSON output".to_string()),
        )
        .unwrap_err();
    assert_eq!(err, "failed to parse diarization JSON output");
}
