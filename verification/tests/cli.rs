use fast_transcript::binary64::Binary64;
use fast_transcript::cli::{parse_args_with_diarization_status, CliArgs, CliDefaults};
use fast_transcript::diarization::{
    missing_diarization_notice, DiarizationBackend, DiarizationRequest, FluidaudioBinaryStatus,
};
use fast_transcript::model::{
    default_model_dir, default_model_package, default_model_url, fallback_cache_dir,
    fallback_data_dir, DEFAULT_MODEL_BASENAME, DEFAULT_MODEL_PACKAGE_NAME,
};
use fast_transcript::types::{OutputFormat, SpeakersFormat, SubtitleFormat, TextFormat};
use fast_transcript::{usage_text, version_text};
use std::path::Path;
use std::path::PathBuf;

fn cli_bits(x: f64) -> Binary64 {
    Binary64 { bits: x.to_bits() }
}

fn cli_defaults() -> CliDefaults {
    let data = fallback_data_dir(Some("/home/lecturer".to_string()));
    let cache = fallback_cache_dir(Some("/home/lecturer".to_string()));
    let model_dir = default_model_dir(None, &data);
    let model_package = default_model_package(None, &cache);
    let usage = usage_text(&model_dir, &model_package);
    CliDefaults { model_dir, model_package, model_url: default_model_url(None), usage }
}

fn parse_with_status(args: &[String], status: FluidaudioBinaryStatus) -> Result<CliArgs, String> {
    let raw: Vec<String> = args.to_vec();
    let numbers: Vec<Option<u64>> =
        raw.iter().map(|a| a.parse::<f64>().ok().map(f64::to_bits)).collect();
    parse_args_with_diarization_status(&raw, &numbers, &status, &cli_defaults())
}

fn parse_args_with_diarization_availability(
    args: &[String],
    available: bool,
) -> Result<CliArgs, String> {
    let status = if available {
        FluidaudioBinaryStatus::Available
    } else {
        FluidaudioBinaryStatus::MissingDefaultBinary
    };
    parse_with_status(args, status)
}

fn parse_args(args: &[String]) -> Result<CliArgs, String> {
    parse_with_status(args, FluidaudioBinaryStatus::Available)
}

fn path_ends_with(path: &Path, suffix: &[&str]) -> bool {
    let mut current = path;
    for expected in suffix.iter().rev() {
        let Some(name) = current.file_name().and_then(|value| value.to_str()) else {
            return false;
        };
        if name != *expected {
            return false;
        }
        let Some(parent) = current.parent() else {
            return false;
        };
        current = parent;
    }
    true
}

fn lcg_next(state: &mut u64) -> u64 {
    *state = state.wrapping_mul(6364136223846793005).wrapping_add(1442695040888963407);
    *state
}

fn choose_slice<'a>(state: &mut u64, options: &'a [&'a [&'a str]]) -> &'a [&'a str] {
    let index = (lcg_next(state) as usize) % options.len();
    options[index]
}

#[test]
fn parse_args_defaults_to_easy_mode() {
    let args = vec!["audio.mp3".to_string()];
    let parsed = parse_args_with_diarization_availability(&args, true).unwrap();
    assert_eq!(parsed.input, "audio.mp3");
    assert_eq!(parsed.output_path, None);
    assert!(!parsed.output_to_stdout);
    assert_eq!(parsed.output_format, OutputFormat::Speakers(SpeakersFormat::Timestamped));
    assert!(parsed.clean_output);
    assert_eq!(parsed.chunk_seconds, Some(cli_bits(120.0)));
    assert_eq!(parsed.chunk_overlap_seconds, cli_bits(2.0));
    assert_eq!(
        parsed.diarization,
        Some(DiarizationRequest {
            backend: DiarizationBackend::Coreml,
            num_speakers: None,
            threshold: None,
        })
    );
    assert_eq!(parsed.diarization_notice, None);
    assert!(path_ends_with(Path::new(&parsed.model_dir), &["models", DEFAULT_MODEL_BASENAME]));
    assert!(path_ends_with(Path::new(&parsed.model_package), &[DEFAULT_MODEL_PACKAGE_NAME]));
}

#[test]
fn default_model_paths_use_persistent_user_dirs() {
    let data = fallback_data_dir(Some("/home/lecturer".to_string()));
    let cache = fallback_cache_dir(Some("/home/lecturer".to_string()));
    assert!(path_ends_with(
        Path::new(&default_model_dir(None, &data)),
        &["models", DEFAULT_MODEL_BASENAME]
    ));
    assert!(path_ends_with(
        Path::new(&default_model_package(None, &cache)),
        &[DEFAULT_MODEL_PACKAGE_NAME]
    ));
    assert_eq!(
        default_model_dir(None, &data),
        "/home/lecturer/.local/share/fast-transcript/models/parakeet-tdt-0.6b-v3-int8"
    );
    assert_eq!(
        default_model_package(None, &cache),
        "/home/lecturer/.cache/fast-transcript/parakeet-v3-int8.tar.gz"
    );
    assert_eq!(default_model_dir(Some("/models/x".to_string()), &data), "/models/x");
    assert_eq!(fallback_data_dir(None), ".fast-transcript");
    assert_eq!(fallback_cache_dir(None), ".fast-transcript-cache");
}

#[test]
fn usage_groups_flags_into_readable_sections() {
    let help = cli_defaults().usage;
    assert!(help.contains("Usage:\n"));
    assert!(help.contains("  fscript <media-or-url> [destination] [options]"));
    assert!(help.contains("Default:\n"));
    assert!(help.contains(
        "Default flags: --speakers --diarize coreml --clean --chunk 120 --overlap 2"
    ));
    assert!(help.contains(
        "Accepts local audio/video files or remote media URLs; video inputs are transcribed from their audio stream."
    ));
    assert!(help.contains("Output:\n"));
    assert!(help.contains("Diarization:\n"));
    assert!(help.contains("Remote input:\n"));
    assert!(help.contains("Defaults summary:\n"));
    assert!(help.contains("Examples:\n"));
    assert!(help.contains("--speakers[=plain|timestamps]"));
    assert!(help.contains("-d, --diarize [coreml|lseend-dihard3]"));
    assert!(help.contains("-D, --no-diarization"));
    assert!(!help.contains("/Users/"));
}

#[test]
fn parse_args_supports_clean_flag() {
    let args = vec!["audio.mp3".to_string(), "--clean".to_string()];
    let parsed = parse_args(&args).unwrap();
    assert!(parsed.clean_output);
}

#[test]
fn parse_args_supports_raw_flag() {
    let args = vec!["audio.mp3".to_string(), "--raw".to_string()];
    let parsed = parse_args(&args).unwrap();
    assert!(!parsed.clean_output);
}

#[test]
fn parse_args_rejects_raw_and_clean_together() {
    let args = vec!["audio.mp3".to_string(), "--raw".to_string(), "--clean".to_string()];
    let err = parse_args(&args).unwrap_err();
    assert!(err.to_string().contains("cannot use both --raw and --clean"));
}

#[test]
fn parse_args_accepts_optional_output_and_chunk_seconds() {
    let args = vec![
        "audio.wav".to_string(),
        "out.json".to_string(),
        "--model-dir".to_string(),
        "custom-model".to_string(),
        "--chunk".to_string(),
        "60".to_string(),
        "--overlap".to_string(),
        "1.5".to_string(),
    ];
    let parsed = parse_args(&args).unwrap();
    assert_eq!(parsed.output_path.map(PathBuf::from), Some(PathBuf::from("out.json")));
    assert_eq!(PathBuf::from(&parsed.model_dir), PathBuf::from("custom-model"));
    assert_eq!(parsed.chunk_seconds, Some(cli_bits(60.0)));
    assert_eq!(parsed.chunk_overlap_seconds, cli_bits(1.5));
}

#[test]
fn parse_args_supports_output_flag() {
    let args = vec!["audio.wav".to_string(), "-o".to_string(), "out.json".to_string()];
    let parsed = parse_args(&args).unwrap();
    assert_eq!(parsed.output_path.map(PathBuf::from), Some(PathBuf::from("out.json")));
}

#[test]
fn parse_args_supports_output_flag_equals_syntax() {
    let args = vec!["audio.wav".to_string(), "--output=out.json".to_string()];
    let parsed = parse_args(&args).unwrap();
    assert_eq!(parsed.output_path.map(PathBuf::from), Some(PathBuf::from("out.json")));
}

#[test]
fn parse_args_supports_stdout_shortcut() {
    let args = vec!["audio.wav".to_string(), "-".to_string()];
    let parsed = parse_args(&args).unwrap();
    assert!(parsed.output_to_stdout);
    assert_eq!(parsed.output_path, None);
}

#[test]
fn parse_args_supports_stdout_flag() {
    let args = vec!["audio.wav".to_string(), "--stdout".to_string()];
    let parsed = parse_args(&args).unwrap();
    assert!(parsed.output_to_stdout);
    assert_eq!(parsed.output_path, None);
}

#[test]
fn parse_args_rejects_output_path_with_stdout_flag() {
    let args = vec![
        "audio.wav".to_string(),
        "--output".to_string(),
        "out.json".to_string(),
        "--stdout".to_string(),
    ];
    let err = parse_args(&args).unwrap_err();
    assert!(err.to_string().contains("cannot use both --stdout and an explicit output path"));
}

#[test]
fn parse_args_rejects_positional_output_path_with_output_flag() {
    let args = vec![
        "audio.wav".to_string(),
        "one.txt".to_string(),
        "--output".to_string(),
        "two.txt".to_string(),
    ];
    let err = parse_args(&args).unwrap_err();
    assert!(err.to_string().contains("cannot use both positional output path and --output"));
}

#[test]
fn parse_args_supports_speakers_output_defaulting_to_timestamps() {
    let args = vec!["audio.wav".to_string(), "--speakers".to_string()];
    let parsed = parse_args(&args).unwrap();
    assert_eq!(parsed.output_format, OutputFormat::Speakers(SpeakersFormat::Timestamped));
}

#[test]
fn parse_args_supports_plain_speakers_output() {
    let args = vec!["audio.wav".to_string(), "--speakers=plain".to_string()];
    let parsed = parse_args(&args).unwrap();
    assert_eq!(parsed.output_format, OutputFormat::Speakers(SpeakersFormat::Plain));
}

#[test]
fn parse_args_rejects_removed_script_flag() {
    let args = vec!["audio.wav".to_string(), "--script".to_string()];
    let err = parse_args(&args).unwrap_err();
    assert!(err.to_string().contains("unknown argument"));
}

#[test]
fn parse_args_rejects_unknown_short_flag_instead_of_treating_it_as_output_path() {
    let args = vec!["audio.wav".to_string(), "-Z".to_string()];
    let err = parse_args(&args).unwrap_err();
    assert!(err.to_string().contains("unknown argument \"-Z\""));
}

#[test]
fn parse_args_distinguishes_short_flags_from_hyphen_prefixed_paths() {
    let stdout = parse_args(&["audio.wav".to_string(), "-".to_string()]).unwrap();
    assert!(stdout.output_to_stdout);
    assert_eq!(stdout.output_path, None);

    let no_diarization = parse_args(&["audio.wav".to_string(), "-D".to_string()]).unwrap();
    assert_eq!(no_diarization.diarization, None);
    assert_eq!(no_diarization.output_path, None);

    let explicit_hyphen_path = parse_args(&["audio.wav".to_string(), "./-D".to_string()]).unwrap();
    assert_eq!(explicit_hyphen_path.output_path.map(PathBuf::from), Some(PathBuf::from("./-D")));

    let explicit_unknown_hyphen_path =
        parse_args(&["audio.wav".to_string(), "./-Z".to_string()]).unwrap();
    assert_eq!(
        explicit_unknown_hyphen_path.output_path.map(PathBuf::from),
        Some(PathBuf::from("./-Z"))
    );

    let err = parse_args(&["audio.wav".to_string(), "-Z".to_string()]).unwrap_err();
    assert!(err.to_string().contains("unknown argument \"-Z\""));
}

#[test]
fn parse_args_fuzzes_unknown_short_flags_across_valid_contexts() {
    let output_modes: &[&[&str]] = &[&[], &["--json"], &["--text=plain"], &["--speakers=plain"]];
    let destinations: &[&[&str]] = &[&[], &["out.txt"], &["--output", "out.txt"], &["-"]];
    let diarization_modes: &[&[&str]] = &[&[], &["-D"], &["--diarize", "coreml"]];
    let chunking_modes: &[&[&str]] = &[&[], &["--chunk", "30", "--overlap", "1"]];

    let mut state = 0x5EED_u64;
    for _ in 0..256 {
        let invalid_flag = format!("-{}", (b'J' + (lcg_next(&mut state) % 10) as u8) as char);
        let mut groups = vec![vec!["audio.wav".to_string()]];
        for token_group in [
            choose_slice(&mut state, output_modes),
            choose_slice(&mut state, destinations),
            choose_slice(&mut state, diarization_modes),
            choose_slice(&mut state, chunking_modes),
        ] {
            if !token_group.is_empty() {
                groups.push(token_group.iter().map(|token| (*token).to_string()).collect());
            }
        }

        let insert_group = 1 + (lcg_next(&mut state) as usize % groups.len());
        groups.insert(insert_group, vec![invalid_flag.clone()]);

        let args = groups.into_iter().flatten().collect::<Vec<_>>();

        let err = parse_args_with_diarization_availability(&args, true).unwrap_err();
        assert!(
            err.to_string().contains(&format!("unknown argument {:?}", invalid_flag)),
            "expected unknown short flag rejection for args {:?}, got {:?}",
            args,
            err
        );
    }
}

#[test]
fn parse_args_supports_text_output_defaulting_to_timestamps() {
    let args = vec!["audio.wav".to_string(), "--text".to_string()];
    let parsed = parse_args(&args).unwrap();
    assert_eq!(parsed.output_format, OutputFormat::Text(TextFormat::Timestamped));
}

#[test]
fn parse_args_supports_plain_text_output() {
    let args = vec!["audio.wav".to_string(), "--text=plain".to_string()];
    let parsed = parse_args(&args).unwrap();
    assert_eq!(parsed.output_format, OutputFormat::Text(TextFormat::Plain));
}

#[test]
fn parse_args_supports_timestamped_text_output_alias() {
    let args = vec!["audio.wav".to_string(), "--text=timestamps".to_string()];
    let parsed = parse_args(&args).unwrap();
    assert_eq!(parsed.output_format, OutputFormat::Text(TextFormat::Timestamped));
}

#[test]
fn parse_args_supports_text_equals_syntax() {
    let args = vec!["audio.wav".to_string(), "--text=timestamps".to_string()];
    let parsed = parse_args(&args).unwrap();
    assert_eq!(parsed.output_format, OutputFormat::Text(TextFormat::Timestamped));
}

#[test]
fn parse_args_supports_srt_output() {
    let args = vec!["audio.wav".to_string(), "--srt".to_string()];
    let parsed = parse_args(&args).unwrap();
    assert_eq!(parsed.output_format, OutputFormat::Subtitle(SubtitleFormat::Srt));
}

#[test]
fn parse_args_supports_explicit_json_output() {
    let args = vec!["audio.wav".to_string(), "--json".to_string()];
    let parsed = parse_args(&args).unwrap();
    assert_eq!(parsed.output_format, OutputFormat::Json);
}

#[test]
fn parse_args_rejects_multiple_output_modes() {
    let args = vec!["audio.wav".to_string(), "--text".to_string(), "--json".to_string()];
    let err = parse_args(&args).unwrap_err();
    assert!(err.to_string().contains("output format flags are mutually exclusive"));
}

#[test]
fn parse_args_supports_vtt_output() {
    let args = vec!["audio.wav".to_string(), "--vtt".to_string()];
    let parsed = parse_args(&args).unwrap();
    assert_eq!(parsed.output_format, OutputFormat::Subtitle(SubtitleFormat::Vtt));
}

#[test]
fn parse_args_supports_local_short_flag() {
    let args =
        vec!["https://www.youtube.com/watch?v=QSdh8Gj0mEg".to_string(), "-l".to_string()];
    let parsed = parse_args(&args).unwrap();
    assert!(parsed.force_local_for_remote);
}

#[test]
fn parse_args_supports_no_diarization_long_flag() {
    let args = vec!["audio.wav".to_string(), "--no-diarization".to_string()];
    let parsed = parse_args(&args).unwrap();
    assert_eq!(parsed.diarization, None);
    assert_eq!(parsed.diarization_notice, None);
}

#[test]
fn parse_args_supports_no_diarization_short_flag() {
    let args = vec!["audio.wav".to_string(), "-D".to_string()];
    let parsed = parse_args(&args).unwrap();
    assert_eq!(parsed.diarization, None);
    assert_eq!(parsed.diarization_notice, None);
}

#[test]
fn parse_args_supports_bare_diarize_flag() {
    let args = vec!["audio.wav".to_string(), "--diarize".to_string()];
    let parsed = parse_args_with_diarization_availability(&args, true).unwrap();
    assert_eq!(
        parsed.diarization,
        Some(DiarizationRequest {
            backend: DiarizationBackend::Coreml,
            num_speakers: None,
            threshold: None,
        })
    );
}

#[test]
fn parse_args_supports_short_diarize_flag_with_coreml_value() {
    let args = vec!["audio.wav".to_string(), "-d".to_string(), "coreml".to_string()];
    let parsed = parse_args_with_diarization_availability(&args, true).unwrap();
    assert_eq!(
        parsed.diarization,
        Some(DiarizationRequest {
            backend: DiarizationBackend::Coreml,
            num_speakers: None,
            threshold: None,
        })
    );
}

#[test]
fn parse_args_supports_diarize_long_flag_with_lseend_value() {
    let args = vec!["audio.wav".to_string(), "--diarize".to_string(), "lseend-dihard3".to_string()];
    let parsed = parse_args_with_diarization_availability(&args, true).unwrap();
    assert_eq!(
        parsed.diarization,
        Some(DiarizationRequest {
            backend: DiarizationBackend::LseendDihard3,
            num_speakers: None,
            threshold: Some(cli_bits(0.3)),
        })
    );
}

#[test]
fn parse_args_rejects_diarize_none_value() {
    let args = vec!["audio.wav".to_string(), "--diarize".to_string(), "none".to_string()];
    let err = parse_args(&args).unwrap_err();
    assert!(err.to_string().contains("use --no-diarization or -D instead of `--diarize none`"));
}

#[test]
fn parse_args_rejects_conflicting_diarization_toggles() {
    let args = vec!["audio.wav".to_string(), "-d".to_string(), "-D".to_string()];
    let err = parse_args(&args).unwrap_err();
    assert!(err.to_string().contains("cannot combine --diarize with --no-diarization"));
}

#[test]
fn parse_args_supports_backend_none() {
    let args = vec!["audio.wav".to_string(), "--backend=none".to_string()];
    let parsed = parse_args(&args).unwrap();
    assert_eq!(parsed.diarization, None);
}

#[test]
fn parse_args_supports_backend_lseend() {
    let args = vec!["audio.wav".to_string(), "--backend".to_string(), "lseend-dihard3".to_string()];
    let parsed = parse_args(&args).unwrap();
    assert_eq!(
        parsed.diarization,
        Some(DiarizationRequest {
            backend: DiarizationBackend::LseendDihard3,
            num_speakers: None,
            threshold: Some(cli_bits(0.3)),
        })
    );
}

#[test]
fn parse_args_defaults_to_no_diarization_when_helper_is_missing() {
    let args = vec!["audio.wav".to_string()];
    let parsed = parse_args_with_diarization_availability(&args, false).unwrap();
    assert_eq!(parsed.diarization, None);
    assert_eq!(
        parsed.diarization_notice.as_deref(),
        Some(
            "speaker diarization disabled because `fluidaudiocli` is not available on PATH; this installation may be incomplete. Reinstall the bundled helper or set FSCRIPT_DIARIZATION_BINARY to a working fluidaudiocli binary."
        )
    );
}

#[test]
fn parse_args_uses_override_specific_notice_when_configured_binary_is_missing_on_path() {
    let notice = missing_diarization_notice(&FluidaudioBinaryStatus::MissingConfiguredBinaryOnPath {
        binary: "custom-fluidaudiocli".to_string(),
    });
    assert_eq!(
        notice.as_deref(),
        Some(
            "speaker diarization disabled because FSCRIPT_DIARIZATION_BINARY is set to `custom-fluidaudiocli`, but that command is not available on PATH; falling back to plain transcription."
        )
    );
}

#[test]
fn parse_args_uses_override_specific_notice_when_configured_binary_path_is_invalid() {
    let notice = missing_diarization_notice(&FluidaudioBinaryStatus::InvalidConfiguredBinaryPath {
        binary: "/definitely/missing/fluidaudiocli".to_string(),
    });
    assert_eq!(
        notice.as_deref(),
        Some(
            "speaker diarization disabled because FSCRIPT_DIARIZATION_BINARY points to `/definitely/missing/fluidaudiocli`, but that path is not an executable file; falling back to plain transcription."
        )
    );
}

#[test]
fn parse_args_keeps_explicit_coreml_request_when_helper_is_missing() {
    let args = vec!["audio.wav".to_string(), "--backend=coreml".to_string()];
    let parsed = parse_args_with_diarization_availability(&args, false).unwrap();
    assert_eq!(
        parsed.diarization,
        Some(DiarizationRequest {
            backend: DiarizationBackend::Coreml,
            num_speakers: None,
            threshold: None,
        })
    );
    assert_eq!(parsed.diarization_notice, None);
}

#[test]
fn parse_args_supports_num_speakers_long_flag() {
    let args = vec!["audio.wav".to_string(), "--num-speakers".to_string(), "2".to_string()];
    let parsed = parse_args_with_diarization_availability(&args, true).unwrap();
    assert_eq!(
        parsed.diarization,
        Some(DiarizationRequest {
            backend: DiarizationBackend::Coreml,
            num_speakers: Some(2),
            threshold: None,
        })
    );
}

#[test]
fn parse_args_rejects_num_speakers_with_backend_none() {
    let args = vec![
        "audio.wav".to_string(),
        "--backend=none".to_string(),
        "--num-speakers".to_string(),
        "2".to_string(),
    ];
    let err = parse_args(&args).unwrap_err();
    assert!(err.to_string().contains("--num-speakers requires diarization"));
}

#[test]
fn parse_args_supports_threshold_short_flag_with_lseend() {
    let args = vec![
        "audio.wav".to_string(),
        "--backend=lseend-dihard3".to_string(),
        "-t".to_string(),
        "0.3".to_string(),
    ];
    let parsed = parse_args(&args).unwrap();
    assert_eq!(
        parsed.diarization,
        Some(DiarizationRequest {
            backend: DiarizationBackend::LseendDihard3,
            num_speakers: None,
            threshold: Some(cli_bits(0.3)),
        })
    );
}

#[test]
fn parse_args_allows_overriding_default_lseend_threshold() {
    let args = vec![
        "audio.wav".to_string(),
        "--backend=lseend-dihard3".to_string(),
        "--threshold".to_string(),
        "0.45".to_string(),
    ];
    let parsed = parse_args(&args).unwrap();
    assert_eq!(
        parsed.diarization,
        Some(DiarizationRequest {
            backend: DiarizationBackend::LseendDihard3,
            num_speakers: None,
            threshold: Some(cli_bits(0.45)),
        })
    );
}

#[test]
fn parse_args_rejects_threshold_without_lseend_backend() {
    let args = vec!["audio.wav".to_string(), "--threshold".to_string(), "0.3".to_string()];
    let err = parse_args_with_diarization_availability(&args, true).unwrap_err();
    assert!(err.to_string().contains("--threshold only works with `--diarize lseend-dihard3`"));
}

#[test]
fn parse_args_rejects_num_speakers_with_lseend_backend() {
    let args = vec![
        "audio.wav".to_string(),
        "--backend=lseend-dihard3".to_string(),
        "--num-speakers".to_string(),
        "2".to_string(),
    ];
    let err = parse_args(&args).unwrap_err();
    assert!(err.to_string().contains("--num-speakers is not supported with `--diarize lseend-dihard3`"));
}

#[test]
fn version_string_matches_package_version() {
    assert_eq!(version_text(), "fscript 1.0.3");
}

#[test]
fn parse_args_can_disable_chunking() {
    let args = vec!["audio.wav".to_string(), "--chunk".to_string(), "0".to_string()];
    let parsed = parse_args(&args).unwrap();
    assert_eq!(parsed.chunk_seconds, None);
    assert_eq!(parsed.chunk_overlap_seconds, cli_bits(0.0));
}

#[test]
fn parse_args_text_mode_skips_diarization_with_a_warning() {
    let args = vec!["audio.wav".to_string(), "--text".to_string(), "-n".to_string(), "2".to_string()];
    let parsed = parse_args_with_diarization_availability(&args, true).unwrap();
    assert_eq!(parsed.diarization, None);
    assert!(parsed.diarization_notice.unwrap().contains("text output modes never run diarization"));

    let missing_helper = parse_args_with_diarization_availability(
        &["audio.wav".to_string(), "--text=plain".to_string()],
        false,
    )
    .unwrap();
    assert_eq!(missing_helper.diarization, None);
    assert_eq!(
        missing_helper.diarization_notice,
        missing_diarization_notice(&FluidaudioBinaryStatus::MissingDefaultBinary)
    );

    let quiet = parse_args_with_diarization_availability(
        &["audio.wav".to_string(), "--text".to_string()],
        true,
    )
    .unwrap();
    assert_eq!(quiet.diarization, None);
    assert_eq!(quiet.diarization_notice, None);
}

#[test]
fn parse_args_text_mode_warns_about_backend_none() {
    let args = vec![
        "audio.wav".to_string(),
        "--text".to_string(),
        "--backend".to_string(),
        "none".to_string(),
    ];
    let parsed = parse_args_with_diarization_availability(&args, false).unwrap();
    assert_eq!(parsed.diarization, None);
    assert!(parsed.diarization_notice.unwrap().contains("text output modes never run diarization"));

    let opted_out = parse_args_with_diarization_availability(
        &["audio.wav".to_string(), "--text".to_string(), "--no-diarization".to_string()],
        false,
    )
    .unwrap();
    assert_eq!(opted_out.diarization, None);
    assert_eq!(opted_out.diarization_notice, None);
}

#[test]
fn parse_args_accepts_nan_chunk_like_the_float_comparisons_do() {
    let args = vec!["audio.wav".to_string(), "--chunk".to_string(), "NaN".to_string()];
    let parsed = parse_args(&args).unwrap();
    assert!(f64::from_bits(parsed.chunk_seconds.unwrap().bits).is_nan());
    assert_eq!(parsed.chunk_overlap_seconds, cli_bits(2.0));

    let negative = vec!["audio.wav".to_string(), "--chunk".to_string(), "-1".to_string()];
    assert_eq!(parse_args(&negative).unwrap_err(), "--chunk must be >= 0");
    let negative = vec!["audio.wav".to_string(), "--overlap".to_string(), "-0.5".to_string()];
    assert_eq!(parse_args(&negative).unwrap_err(), "--overlap must be >= 0");
}

#[test]
fn parse_args_rejects_overlap_not_smaller_than_chunk() {
    let args = vec![
        "audio.wav".to_string(),
        "--chunk".to_string(),
        "2".to_string(),
        "--overlap".to_string(),
        "2".to_string(),
    ];
    let err = parse_args(&args).unwrap_err();
    assert!(err.contains("--overlap must be smaller than --chunk"));
}

#[test]
fn usage_names_media_or_url_and_not_the_old_placeholder() {
    let help = usage_text("~/.fast-transcript/models/parakeet", "~/.cache/fast-transcript/model.tar.gz");
    assert!(help.contains("fscript <media-or-url>"));
    assert!(!help.contains("<audio-or-url>"));
}
