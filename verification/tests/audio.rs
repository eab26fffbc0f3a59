use fast_transcript::audio::{
    ffmpeg_args, ffprobe_args, first_audio_stream, is_supported_audio, normalized_wav_name,
    FfprobeStream,
};

#[test]
fn supported_audio_requires_16k_mono_pcm_s16le() {
    let ok = FfprobeStream {
        codec_type: Some("audio".to_string()),
        codec_name: Some("pcm_s16le".to_string()),
        sample_rate: Some("16000".to_string()),
        channels: Some(1),
        bits_per_sample: Some(16),
        sample_fmt: Some("s16".to_string()),
    };
    let bad = FfprobeStream {
        codec_type: Some("audio".to_string()),
        codec_name: Some("mp3".to_string()),
        sample_rate: Some("44100".to_string()),
        channels: Some(2),
        bits_per_sample: Some(0),
        sample_fmt: Some("fltp".to_string()),
    };
    assert!(is_supported_audio(&ok));
    assert!(!is_supported_audio(&bad));
}

#[test]
fn supported_audio_accepts_s16_sample_format_and_finds_first_audio_stream() {
    let fmt_only = FfprobeStream {
        codec_type: Some("audio".to_string()),
        codec_name: Some("pcm_s16le".to_string()),
        sample_rate: Some("16000".to_string()),
        channels: Some(1),
        bits_per_sample: None,
        sample_fmt: Some("s16".to_string()),
    };
    assert!(is_supported_audio(&fmt_only));
    let video = FfprobeStream {
        codec_type: Some("video".to_string()),
        codec_name: Some("h264".to_string()),
        sample_rate: None,
        channels: None,
        bits_per_sample: None,
        sample_fmt: None,
    };
    assert_eq!(first_audio_stream(&vec![video.clone(), fmt_only.clone()]), Some(fmt_only));
    assert_eq!(first_audio_stream(&vec![video]), None);
}

#[test]
fn normalized_audio_file_name_and_ffmpeg_arguments() {
    assert_eq!(normalized_wav_name("/tmp/in/input.mp3"), "input.16k_mono.wav");
    assert_eq!(normalized_wav_name("/"), "audio.16k_mono.wav");
    assert_eq!(
        ffmpeg_args("in.mp3", "/tmp/x/in.16k_mono.wav"),
        vec![
            "-hide_banner", "-loglevel", "error", "-nostats", "-y", "-i", "in.mp3", "-vn", "-sn",
            "-dn", "-ar", "16000", "-ac", "1", "-c:a", "pcm_s16le", "/tmp/x/in.16k_mono.wav",
        ]
    );
    assert_eq!(
        ffprobe_args("a.wav"),
        vec!["-v", "error", "-print_format", "json", "-show_streams", "a.wav"]
    );
}
