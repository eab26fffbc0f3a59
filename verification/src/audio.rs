//! Audio preparation: which streams can be transcribed as they are, and the
//! `ffprobe` and `ffmpeg` command lines that inspect and convert the rest.

use vstd::prelude::*;

use crate::paths::{file_stem_of, path_file_stem};
use crate::text::{append_str, chars_eq, chars_of, string_views};

verus! {

/// One stream as `ffprobe -show_streams` describes it.
#[derive(Clone, Debug, PartialEq)]
pub struct FfprobeStream {
    pub codec_type: Option<String>,
    pub codec_name: Option<String>,
    pub sample_rate: Option<String>,
    pub channels: Option<u64>,
    pub bits_per_sample: Option<u64>,
    pub sample_fmt: Option<String>,
}

/// Whether an optional text field holds exactly `lit`.
pub open spec fn field_is(field: Option<String>, lit: Seq<char>) -> bool {
    match field {
        Some(s) => s@ == lit,
        None => false,
    }
}

fn field_equals(field: &Option<String>, lit: &str) -> (r: bool)
    ensures
        r == field_is(*field, lit@),
{
    match field {
        Some(s) => {
            let v = chars_of(s.as_str());
            chars_eq(v.as_slice(), lit)
        },
        None => false,
    }
}

/// The model reads 16 kHz mono 16-bit PCM as it is: sample rate `16000`, one
/// channel, codec `pcm_s16le`, and 16 bits per sample (or sample format
/// `s16`).
pub open spec fn supported_audio_spec(stream: FfprobeStream) -> bool {
    &&& field_is(stream.sample_rate, "16000"@)
    &&& stream.channels == Some(1u64)
    &&& field_is(stream.codec_name, "pcm_s16le"@)
    &&& (stream.bits_per_sample == Some(16u64) || field_is(stream.sample_fmt, "s16"@))
}

/// Whether the stream can be transcribed without converting it.
pub fn is_supported_audio(stream: &FfprobeStream) -> (r: bool)
    ensures
        r == supported_audio_spec(*stream),
{
    let sample_rate_ok = field_equals(&stream.sample_rate, "16000");
    let channels_ok = match stream.channels {
        Some(c) => c == 1,
        None => false,
    };
    let codec_ok = field_equals(&stream.codec_name, "pcm_s16le");
    let bits_ok = match stream.bits_per_sample {
        Some(b) => b == 16,
        None => false,
    } || field_equals(&stream.sample_fmt, "s16");
    sample_rate_ok && channels_ok && codec_ok && bits_ok
}

/// The first stream from `i` on whose type is `audio`.
pub open spec fn first_audio_from(streams: Seq<FfprobeStream>, i: int) -> Option<int>
    decreases streams.len() - i,
{
    if i < 0 || i >= streams.len() {
        None
    } else if field_is(streams[i].codec_type, "audio"@) {
        Some(i)
    } else {
        first_audio_from(streams, i + 1)
    }
}

/// The first audio stream that `ffprobe` lists.
pub fn first_audio_stream(streams: &Vec<FfprobeStream>) -> (r: Option<FfprobeStream>)
    ensures
        match first_audio_from(streams@, 0) {
            Some(i) => r == Some(streams@[i]),
            None => r is None,
        },
{
    let mut i: usize = 0;
    while i < streams.len()
        invariant
            i <= streams.len(),
            first_audio_from(streams@, 0) == first_audio_from(streams@, i as int),
        decreases streams.len() - i,
    {
        if field_equals(&streams[i].codec_type, "audio") {
            let s = &streams[i];
            return Some(
                FfprobeStream {
                    codec_type: clone_field(&s.codec_type),
                    codec_name: clone_field(&s.codec_name),
                    sample_rate: clone_field(&s.sample_rate),
                    channels: s.channels,
                    bits_per_sample: s.bits_per_sample,
                    sample_fmt: clone_field(&s.sample_fmt),
                },
            );
        }
        i = i + 1;
    }
    None
}

fn clone_field(f: &Option<String>) -> (r: Option<String>)
    ensures
        r == *f,
{
    match f {
        Some(s) => {
            let c = s.clone();
            assert(c == *s);
            Some(c)
        },
        None => None,
    }
}

fn push_arg(v: &mut Vec<String>, s: &str)
    ensures
        string_views(final(v)@) == string_views(old(v)@).push(s@),
{
    let ghost before = v@;
    v.push(s.to_string());
    assert(string_views(v@) == string_views(before).push(v@.last()@));
}

/// `ffprobe`'s arguments for listing the streams of `path` as JSON.
pub fn ffprobe_args(path: &str) -> (r: Vec<String>)
    ensures
        string_views(r@) == seq![
            "-v"@,
            "error"@,
            "-print_format"@,
            "json"@,
            "-show_streams"@,
            path@,
        ],
{
    let mut v: Vec<String> = Vec::new();
    push_arg(&mut v, "-v");
    push_arg(&mut v, "error");
    push_arg(&mut v, "-print_format");
    push_arg(&mut v, "json");
    push_arg(&mut v, "-show_streams");
    push_arg(&mut v, path);
    v
}

/// `ffmpeg`'s arguments for converting the audio of `input` to 16 kHz mono
/// 16-bit PCM WAV at `output`, quietly and overwriting.
pub open spec fn ffmpeg_args_spec(input: Seq<char>, output: Seq<char>) -> Seq<Seq<char>> {
    seq![
        "-hide_banner"@,
        "-loglevel"@,
        "error"@,
        "-nostats"@,
        "-y"@,
        "-i"@,
        input,
        "-vn"@,
        "-sn"@,
        "-dn"@,
        "-ar"@,
        "16000"@,
        "-ac"@,
        "1"@,
        "-c:a"@,
        "pcm_s16le"@,
        output,
    ]
}

pub fn ffmpeg_args(input: &str, output: &str) -> (r: Vec<String>)
    ensures
        string_views(r@) == ffmpeg_args_spec(input@, output@),
{
    let mut v: Vec<String> = Vec::new();
    push_arg(&mut v, "-hide_banner");
    push_arg(&mut v, "-loglevel");
    push_arg(&mut v, "error");
    push_arg(&mut v, "-nostats");
    push_arg(&mut v, "-y");
    push_arg(&mut v, "-i");
    push_arg(&mut v, input);
    push_arg(&mut v, "-vn");
    push_arg(&mut v, "-sn");
    push_arg(&mut v, "-dn");
    push_arg(&mut v, "-ar");
    push_arg(&mut v, "16000");
    push_arg(&mut v, "-ac");
    push_arg(&mut v, "1");
    push_arg(&mut v, "-c:a");
    push_arg(&mut v, "pcm_s16le");
    push_arg(&mut v, output);
    v
}

/// The stem of the converted file: the input's stem, or `audio` when it has
/// none (or an empty one).
pub open spec fn normalized_stem(stem: Option<Seq<char>>) -> Seq<char> {
    match stem {
        Some(s) => if s.len() > 0 {
            s
        } else {
            "audio"@
        },
        None => "audio"@,
    }
}

/// The file name of the converted audio: `<stem>.16k_mono.wav`.
pub fn normalized_wav_name(input_path: &str) -> (r: String)
    ensures
        r@ == normalized_stem(path_file_stem(input_path@)) + ".16k_mono.wav"@,
{
    let stem = file_stem_of(input_path);
    let mut name = match stem {
        Some(s) => if !s.as_str().is_empty() {
            s
        } else {
            "audio".to_string()
        },
        None => "audio".to_string(),
    };
    append_str(&mut name, ".16k_mono.wav");
    name
}

} // verus!
