//! Verified core of the `fscript` lecture transcription tool: argument
//! parsing, transcript cleaning, chunk merging and output rendering.

pub mod audio;
pub mod binary64;
pub mod cli;
pub mod diarization;
pub mod model;
pub mod number;
pub mod output;
pub mod paths;
pub mod progress;
pub mod remote;
pub mod text;
pub mod transcribe;
pub mod types;
pub mod usage;

pub use usage::{usage_text, version_text};

use vstd::prelude::*;

use crate::cli::{parse_args_with_diarization_status, CliArgs, CliDefaults};
use crate::diarization::FluidaudioBinaryStatus;
use crate::remote::{DirectTranscript, YtDlpVideoInfo};
use crate::text::{
    chars_eq, chars_of, decode_utf8_lossy, string_of, string_views, trim, trim_str,
    utf8_lossy,
};
use crate::types::{segments_view, BenchmarkChunk, BenchmarkResult};

verus! {

/// Audio is transcribed at this many samples per second.
pub const SAMPLE_RATE: usize = 16_000;

// ---------------------------------------------------------------------------
// What a run does first
// ---------------------------------------------------------------------------

/// What the command line asks for before any parsing: help, the version, or
/// a transcription.
#[derive(Clone, Copy, Debug, PartialEq, Eq, Structural)]
pub enum TopLevelRequest {
    Help,
    Version,
    Run,
}

pub open spec fn has_arg(args: Seq<Seq<char>>, a: Seq<char>) -> bool {
    exists|i: int| 0 <= i < args.len() && #[trigger] args[i] == a
}

/// `--help`/`-h` anywhere wins, then `--version`/`-V` anywhere.
pub open spec fn top_level_spec(args: Seq<Seq<char>>) -> TopLevelRequest {
    if has_arg(args, "--help"@) || has_arg(args, "-h"@) {
        TopLevelRequest::Help
    } else if has_arg(args, "--version"@) || has_arg(args, "-V"@) {
        TopLevelRequest::Version
    } else {
        TopLevelRequest::Run
    }
}

fn any_arg(args: &Vec<String>, a: &str, b: &str) -> (r: bool)
    ensures
        r == (has_arg(string_views(args@), a@) || has_arg(string_views(args@), b@)),
{
    let ghost av = string_views(args@);
    let mut i: usize = 0;
    while i < args.len()
        invariant
            i <= args.len(),
            av == string_views(args@),
            forall|j: int| 0 <= j < i ==> #[trigger] av[j] != a@ && av[j] != b@,
        decreases args.len() - i,
    {
        let v = chars_of(args[i].as_str());
        assert(av[i as int] == args@[i as int]@);
        if chars_eq(v.as_slice(), a) || chars_eq(v.as_slice(), b) {
            return true;
        }
        i = i + 1;
    }
    false
}

/// Whether the command line asks for help, the version, or a run.
pub fn top_level_request(raw_args: &Vec<String>) -> (r: TopLevelRequest)
    ensures
        r == top_level_spec(string_views(raw_args@)),
{
    if any_arg(raw_args, "--help", "-h") {
        TopLevelRequest::Help
    } else if any_arg(raw_args, "--version", "-V") {
        TopLevelRequest::Version
    } else {
        TopLevelRequest::Run
    }
}

// ---------------------------------------------------------------------------
// Remote media
// ---------------------------------------------------------------------------

/// Platform subtitles are tried only when the user did not ask for a local
/// transcription and no diarization is to run.
pub fn should_try_manual_subtitles(args: &CliArgs) -> (r: bool)
    ensures
        r == (!args.force_local_for_remote && args.diarization is None),
{
    !args.force_local_for_remote && args.diarization.is_none()
}

/// The name that remote output files are given: the video's title, else its
/// id.
pub fn title_hint(info: &YtDlpVideoInfo) -> (r: Option<String>)
    ensures
        r == match info.title {
            Some(t) => Some(t),
            None => info.id,
        },
{
    match &info.title {
        Some(t) => {
            let c = t.clone();
            assert(c == *t);
            Some(c)
        },
        None => match &info.id {
            Some(i) => {
                let c = i.clone();
                assert(c == *i);
                Some(c)
            },
            None => None,
        },
    }
}

/// The report of a run answered from platform subtitles: no model, no
/// timings, one chunk holding the whole text, and the subtitle segments
/// (none when there are no segments).
pub fn manual_subtitle_result(input_source: &str, transcript: DirectTranscript) -> (r:
    BenchmarkResult)
    ensures
        r.input_source@ == input_source@,
        r.model_dir@ == Seq::<char>::empty(),
        r.audio_path@ == input_source@,
        r.prepared_audio_path@ == Seq::<char>::empty(),
        !r.used_ffmpeg_normalization,
        !r.used_local_model,
        r.transcript_source@ == "remote-manual-subtitle"@,
        r.audio_seconds.bits == 0,
        r.load_seconds.bits == 0,
        r.transcribe_seconds.bits == 0,
        r.total_inside_seconds.bits == 0,
        r.seconds_per_audio_second.bits == 0,
        r.realtime_speedup.bits == 0,
        r.text@ == transcript.text@,
        r.chunk_seconds is None,
        r.chunk_overlap_seconds.bits == 0,
        r.chunk_count == 1,
        r.chunks@.len() == 1,
        r.chunks@[0].index == 0,
        r.chunks@[0].start_s.bits == 0,
        r.chunks@[0].end_s.bits == 0,
        r.chunks@[0].audio_seconds.bits == 0,
        r.chunks@[0].transcribe_seconds.bits == 0,
        r.chunks@[0].text@ == transcript.text@,
        match r.segments {
            Some(s) => transcript.segments@.len() > 0 && segments_view(s@) == segments_view(
                transcript.segments@,
            ),
            None => transcript.segments@.len() == 0,
        },
        r.speaker_diarization is None,
{
    let zero = crate::binary64::Binary64 { bits: 0 };
    let text = transcript.text;
    let chunk = BenchmarkChunk {
        index: 0,
        start_s: zero,
        end_s: zero,
        audio_seconds: zero,
        transcribe_seconds: zero,
        text: text.clone(),
    };
    let mut chunks: Vec<BenchmarkChunk> = Vec::new();
    chunks.push(chunk);
    let segments = transcript.segments;
    BenchmarkResult {
        input_source: input_source.to_string(),
        model_dir: String::new(),
        audio_path: input_source.to_string(),
        prepared_audio_path: String::new(),
        used_ffmpeg_normalization: false,
        used_local_model: false,
        transcript_source: "remote-manual-subtitle".to_string(),
        audio_seconds: zero,
        load_seconds: zero,
        transcribe_seconds: zero,
        total_inside_seconds: zero,
        seconds_per_audio_second: zero,
        realtime_speedup: zero,
        text,
        chunk_seconds: None,
        chunk_overlap_seconds: zero,
        chunk_count: 1,
        chunks,
        segments: if segments.len() > 0 {
            Some(segments)
        } else {
            None
        },
        speaker_diarization: None,
    }
}

// ---------------------------------------------------------------------------
// Fuzzing the parser
// ---------------------------------------------------------------------------

/// At most this many arguments are taken from fuzzer input.
pub const MAX_FUZZ_ARGS: usize = 16;

/// Each argument keeps at most this many bytes of fuzzer input.
pub const MAX_FUZZ_ARG_BYTES: usize = 64;

/// Pieces closed so far, and the open piece, when `s` is split at every
/// byte `b`.
pub open spec fn byte_split_state(s: Seq<u8>, b: u8) -> (Seq<Seq<u8>>, Seq<u8>)
    decreases s.len(),
{
    if s.len() == 0 {
        (seq![], seq![])
    } else {
        let st = byte_split_state(s.drop_last(), b);
        if s.last() == b {
            (st.0.push(st.1), seq![])
        } else {
            (st.0, st.1.push(s.last()))
        }
    }
}

/// `s.split(|x| *x == b)`.
pub open spec fn split_bytes(s: Seq<u8>, b: u8) -> Seq<Seq<u8>> {
    byte_split_state(s, b).0.push(byte_split_state(s, b).1)
}

/// One argument from one piece of fuzzer input: its first 64 bytes decoded
/// (invalid UTF-8 replaced) and trimmed.
pub open spec fn fuzz_arg(piece: Seq<u8>) -> Seq<char> {
    trim(
        utf8_lossy(
            piece.take(
                if piece.len() < MAX_FUZZ_ARG_BYTES {
                    piece.len() as int
                } else {
                    MAX_FUZZ_ARG_BYTES as int
                },
            ),
        ),
    )
}

/// The non-empty arguments of a list of pieces.
pub open spec fn fuzz_args_of(pieces: Seq<Seq<u8>>) -> Seq<Seq<char>>
    decreases pieces.len(),
{
    if pieces.len() == 0 {
        seq![]
    } else if fuzz_arg(pieces.last()).len() > 0 {
        fuzz_args_of(pieces.drop_last()).push(fuzz_arg(pieces.last()))
    } else {
        fuzz_args_of(pieces.drop_last())
    }
}

/// The command line made from fuzzer input: the input is split at NUL bytes
/// (or at newlines when there are none), the first 16 pieces become
/// arguments (see `fuzz_arg`), empty ones are dropped, and `audio.wav` is put
/// first when nothing is left.
pub open spec fn fuzz_command_line(data: Seq<u8>) -> Seq<Seq<char>> {
    let pieces = if data.contains(0u8) {
        split_bytes(data, 0u8)
    } else {
        split_bytes(data, 10u8)
    };
    let taken = pieces.take(
        if pieces.len() < MAX_FUZZ_ARGS {
            pieces.len() as int
        } else {
            MAX_FUZZ_ARGS as int
        },
    );
    let args = fuzz_args_of(taken);
    if args.len() == 0 || args[0].len() == 0 {
        seq!["audio.wav"@] + args
    } else {
        args
    }
}

pub open spec fn byte_views(v: Seq<Vec<u8>>) -> Seq<Seq<u8>> {
    v.map_values(|w: Vec<u8>| w@)
}

fn split_at_byte(data: &[u8], b: u8) -> (r: Vec<Vec<u8>>)
    ensures
        byte_views(r@) == split_bytes(data@, b),
{
    let mut acc: Vec<Vec<u8>> = Vec::new();
    let mut cur: Vec<u8> = Vec::new();
    let mut i: usize = 0;
    while i < data.len()
        invariant
            i <= data.len(),
            byte_views(acc@) == byte_split_state(data@.take(i as int), b).0,
            cur@ == byte_split_state(data@.take(i as int), b).1,
        decreases data.len() - i,
    {
        assert(data@.take(i + 1).drop_last() == data@.take(i as int));
        if data[i] == b {
            let ghost before = acc@;
            acc.push(cur);
            cur = Vec::new();
            assert(byte_views(acc@) == byte_views(before).push(acc@.last()@));
        } else {
            cur.push(data[i]);
        }
        i = i + 1;
    }
    assert(data@.take(data.len() as int) == data@);
    let ghost before = acc@;
    acc.push(cur);
    assert(byte_views(acc@) == byte_views(before).push(acc@.last()@));
    acc
}

fn contains_byte(data: &[u8], b: u8) -> (r: bool)
    ensures
        r == data@.contains(b),
{
    let mut i: usize = 0;
    while i < data.len()
        invariant
            i <= data.len(),
            forall|j: int| 0 <= j < i ==> data@[j] != b,
        decreases data.len() - i,
    {
        if data[i] == b {
            assert(data@[i as int] == b);
            return true;
        }
        i = i + 1;
    }
    false
}

/// Turns fuzzer input into a command line (see `fuzz_command_line`).
pub fn bytes_to_args(data: &[u8]) -> (r: Vec<String>)
    ensures
        string_views(r@) == fuzz_command_line(data@),
{
    let pieces = if contains_byte(data, 0) {
        split_at_byte(data, 0)
    } else {
        split_at_byte(data, 10)
    };
    let ghost pv = byte_views(pieces@);
    let n = if pieces.len() < MAX_FUZZ_ARGS {
        pieces.len()
    } else {
        MAX_FUZZ_ARGS
    };
    let ghost taken = pv.take(n as int);
    let mut args: Vec<String> = Vec::new();
    let mut i: usize = 0;
    while i < n
        invariant
            i <= n,
            n <= pieces.len(),
            pv == byte_views(pieces@),
            taken == pv.take(n as int),
            string_views(args@) == fuzz_args_of(taken.take(i as int)),
        decreases n - i,
    {
        assert(taken.take(i + 1).drop_last() == taken.take(i as int));
        assert(taken.take(i + 1).last() == pieces@[i as int]@);
        let piece = &pieces[i];
        let keep = if piece.len() < MAX_FUZZ_ARG_BYTES {
            piece.len()
        } else {
            MAX_FUZZ_ARG_BYTES
        };
        let mut head: Vec<u8> = Vec::new();
        let mut k: usize = 0;
        while k < keep
            invariant
                k <= keep,
                keep <= piece.len(),
                head@ == piece@.take(k as int),
            decreases keep - k,
        {
            head.push(piece[k]);
            k = k + 1;
            assert(piece@.take(k as int) == piece@.take(k - 1).push(piece@[k - 1]));
        }
        let decoded = decode_utf8_lossy(head.as_slice());
        let t = trim_str(decoded.as_str());
        if t.len() > 0 {
            let ghost before = args@;
            args.push(string_of(t.as_slice()));
            assert(string_views(args@) == string_views(before).push(args@.last()@));
        }
        i = i + 1;
    }
    assert(taken.take(n as int) == taken);
    if args.len() == 0 || args[0].as_str().is_empty() {
        let mut out: Vec<String> = Vec::new();
        out.push("audio.wav".to_string());
        let mut j: usize = 0;
        while j < args.len()
            invariant
                j <= args.len(),
                string_views(out@) == seq!["audio.wav"@] + string_views(args@).take(j as int),
            decreases args.len() - j,
        {
            let ghost before = out@;
            out.push(args[j].clone());
            assert(string_views(out@) == string_views(before).push(args@[j as int]@));
            j = j + 1;
            assert(string_views(args@).take(j as int) == string_views(args@).take(j - 1).push(
                args@[j - 1]@,
            ));
        }
        assert(string_views(args@).take(args.len() as int) == string_views(args@));
        out
    } else {
        args
    }
}

/// Runs the parser on a fuzzed command line.  Being verified, it cannot
/// panic: every input is either parsed or refused with a message.
pub fn fuzz_parse_args(
    raw_args: &Vec<String>,
    numbers: &Vec<Option<u64>>,
    fluidaudio_status: &FluidaudioBinaryStatus,
    defaults: &CliDefaults,
) -> (r: Result<CliArgs, String>)
    requires
        numbers.len() == raw_args.len(),
        raw_args.len() + 2 <= usize::MAX,
    ensures
        crate::cli::cli_result(r) == crate::cli::parse_spec(
            string_views(raw_args@),
            numbers@,
            *fluidaudio_status,
            defaults.model_dir@,
            defaults.model_package@,
            defaults.model_url@,
            defaults.usage@,
        ),
{
    parse_args_with_diarization_status(raw_args, numbers, fluidaudio_status, defaults)
}

} // verus!
