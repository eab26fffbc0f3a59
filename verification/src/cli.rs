//! Command-line parsing.
//!
//! The parser is a state machine over the argument list: `parse_step` reads
//! one flag (and its value, if it takes one), `parse_run` folds it over the
//! list, and `finish_spec` applies the cross-flag rules and defaults.
//!
//! Numbers that the command line gives as decimal fractions (`--chunk`,
//! `--overlap`, `--threshold`) arrive already read as IEEE 754 binary64
//! encodings: `numbers[i]` is the reading of `raw_args[i]`, or `None` where
//! it is not a number.

use vstd::prelude::*;

use crate::binary64::{ieee_eq, ieee_le, ieee_lt, is_nan, Binary64};
use crate::diarization::{
    notice_spec, missing_diarization_notice, DiarizationBackend, DiarizationRequest,
    FluidaudioBinaryStatus,
};
use crate::number::{parse_usize, usize_from_str};
use crate::text::{
    append_str, chars_eq, chars_of, debug_quote, debug_quoted, decimal, starts_with_lit,
    string_of, string_views, suffix_from, views,
};
use crate::types::{OutputFormat, SpeakersFormat, SubtitleFormat, TextFormat};

verus! {

/// Encoding of `120.0`, the default chunk length in seconds.
pub const DEFAULT_CHUNK_SECONDS_BITS: u64 = 0x405E_0000_0000_0000;

/// Encoding of `2.0`, the default chunk overlap in seconds.
pub const DEFAULT_CHUNK_OVERLAP_SECONDS_BITS: u64 = 0x4000_0000_0000_0000;

/// Encoding of `0.3`, the default ls-eend decision threshold.
pub const DEFAULT_LSEEND_THRESHOLD_BITS: u64 = 0x3FD3_3333_3333_3333;

/// Encoding of `0.0`.
pub const ZERO_BITS: u64 = 0;

/// Values that come from the environment: default model locations and the
/// help text that some errors repeat.
pub struct CliDefaults {
    pub model_dir: String,
    pub model_package: String,
    pub model_url: String,
    pub usage: String,
}

/// A parsed command line.
#[derive(Debug)]
pub struct CliArgs {
    pub model_dir: String,
    pub model_package: String,
    pub model_url: String,
    pub input: String,
    pub output_path: Option<String>,
    pub output_to_stdout: bool,
    pub output_format: OutputFormat,
    pub clean_output: bool,
    pub force_local_for_remote: bool,
    pub chunk_seconds: Option<Binary64>,
    pub chunk_overlap_seconds: Binary64,
    pub diarization_notice: Option<String>,
    pub diarization: Option<DiarizationRequest>,
}

/// Which flag set the output path.
#[derive(Clone, Copy, Debug, PartialEq, Eq, Structural)]
pub enum PathSource {
    OutputFlag,
    Positional,
}

/// Which flag chose the output format.
#[derive(Clone, Copy, Debug, PartialEq, Eq, Structural)]
pub enum FormatFlag {
    Json,
    Speakers,
    Text,
    Srt,
    Vtt,
}

/// Which of `--raw` and `--clean` was given.
#[derive(Clone, Copy, Debug, PartialEq, Eq, Structural)]
pub enum CleanFlag {
    Raw,
    Clean,
}

/// Which flag chose the diarization backend.
#[derive(Clone, Copy, Debug, PartialEq, Eq, Structural)]
pub enum SelectionSource {
    Backend,
    Diarize,
    NoDiarization,
}

pub open spec fn path_source_name(p: PathSource) -> Seq<char> {
    match p {
        PathSource::OutputFlag => "--output"@,
        PathSource::Positional => "positional output path"@,
    }
}

pub open spec fn format_flag_name(f: FormatFlag) -> Seq<char> {
    match f {
        FormatFlag::Json => "--json"@,
        FormatFlag::Speakers => "--speakers"@,
        FormatFlag::Text => "--text"@,
        FormatFlag::Srt => "--srt"@,
        FormatFlag::Vtt => "--vtt"@,
    }
}

pub open spec fn selection_name(s: SelectionSource) -> Seq<char> {
    match s {
        SelectionSource::Backend => "--backend"@,
        SelectionSource::Diarize => "--diarize"@,
        SelectionSource::NoDiarization => "--no-diarization"@,
    }
}

/// The parser's state between two flags.
pub struct ParseState {
    pub model_dir: Seq<char>,
    pub model_package: Seq<char>,
    pub model_url: Seq<char>,
    pub input: Option<Seq<char>>,
    pub output_path: Option<Seq<char>>,
    pub output_to_stdout: bool,
    pub output_path_source: Option<PathSource>,
    pub output_format: OutputFormat,
    pub selected_output_flag: Option<FormatFlag>,
    pub clean_output: bool,
    pub clean_flag: Option<CleanFlag>,
    pub force_local_for_remote: bool,
    pub chunk_override: Option<u64>,
    pub overlap_override: Option<u64>,
    pub backend: Option<DiarizationBackend>,
    pub backend_explicit: bool,
    pub selection_source: Option<SelectionSource>,
    pub num_speakers: Option<usize>,
    pub threshold: Option<u64>,
}

/// The mathematical value of a parsed command line.
pub struct CliArgsSpec {
    pub model_dir: Seq<char>,
    pub model_package: Seq<char>,
    pub model_url: Seq<char>,
    pub input: Seq<char>,
    pub output_path: Option<Seq<char>>,
    pub output_to_stdout: bool,
    pub output_format: OutputFormat,
    pub clean_output: bool,
    pub force_local_for_remote: bool,
    pub chunk_seconds: Option<u64>,
    pub chunk_overlap_seconds: u64,
    pub diarization_notice: Option<Seq<char>>,
    pub diarization: Option<DiarizationRequest>,
}

pub open spec fn opt_view(o: Option<String>) -> Option<Seq<char>> {
    match o {
        Some(s) => Some(s@),
        None => None,
    }
}

pub open spec fn bits_of(o: Option<Binary64>) -> Option<u64> {
    match o {
        Some(b) => Some(b.bits),
        None => None,
    }
}

impl CliArgs {
    pub open spec fn view(&self) -> CliArgsSpec {
        CliArgsSpec {
            model_dir: self.model_dir@,
            model_package: self.model_package@,
            model_url: self.model_url@,
            input: self.input@,
            output_path: opt_view(self.output_path),
            output_to_stdout: self.output_to_stdout,
            output_format: self.output_format,
            clean_output: self.clean_output,
            force_local_for_remote: self.force_local_for_remote,
            chunk_seconds: bits_of(self.chunk_seconds),
            chunk_overlap_seconds: self.chunk_overlap_seconds.bits,
            diarization_notice: opt_view(self.diarization_notice),
            diarization: self.diarization,
        }
    }
}

pub open spec fn has_prefix(a: Seq<char>, p: Seq<char>) -> bool {
    p.len() <= a.len() && a.take(p.len() as int) == p
}

pub open spec fn missing_value_msg(flag: Seq<char>, usage: Seq<char>) -> Seq<char> {
    "missing value for "@ + flag + "\n"@ + usage
}

pub open spec fn ensure_format_spec(sel: Option<FormatFlag>, flag: FormatFlag) -> Result<
    Option<FormatFlag>,
    Seq<char>,
> {
    match sel {
        Some(prev) => if prev != flag {
            Err(
                "output format flags are mutually exclusive; received both "@ + format_flag_name(
                    prev,
                ) + " and "@ + format_flag_name(flag),
            )
        } else {
            Ok(sel)
        },
        None => Ok(Some(flag)),
    }
}

pub open spec fn ensure_path_source_spec(src: Option<PathSource>, s: PathSource) -> Result<
    Option<PathSource>,
    Seq<char>,
> {
    match src {
        Some(prev) => Err(
            "cannot use both "@ + path_source_name(prev) + " and "@ + path_source_name(s)
                + " for output path; choose one and remove the other"@,
        ),
        None => Ok(Some(s)),
    }
}

pub open spec fn select_spec(
    st: ParseState,
    source: SelectionSource,
    requested: Option<DiarizationBackend>,
) -> Result<ParseState, Seq<char>> {
    match st.selection_source {
        Some(prev) => if st.backend != requested {
            if st.backend.is_some() != requested.is_some() {
                Err("cannot combine --diarize with --no-diarization; choose one"@)
            } else {
                Err(
                    "cannot combine multiple diarization selections ("@ + selection_name(prev)
                        + " and "@ + selection_name(source) + "); choose one"@,
                )
            }
        } else {
            Ok(st)
        },
        None => Ok(
            ParseState {
                backend_explicit: true,
                selection_source: Some(source),
                backend: requested,
                ..st
            },
        ),
    }
}

pub open spec fn model_value_spec(v: Seq<char>) -> Result<DiarizationBackend, Seq<char>> {
    match DiarizationBackend::from_cli_spec(v) {
        Some(b) => Ok(b),
        None => Err(
            "invalid diarization mode "@ + debug_quoted(v) + "; expected coreml or lseend-dihard3"@,
        ),
    }
}

pub open spec fn backend_value_spec(v: Seq<char>) -> Result<Option<DiarizationBackend>, Seq<char>> {
    if v == "none"@ {
        Ok(None)
    } else {
        match model_value_spec(v) {
            Ok(b) => Ok(Some(b)),
            Err(e) => Err(e),
        }
    }
}

/// Continues with `st` at argument `j`, or stops on an error.
pub open spec fn advance(r: Result<ParseState, Seq<char>>, j: int) -> Result<
    (ParseState, int),
    Seq<char>,
> {
    match r {
        Ok(s) => Ok((s, j)),
        Err(e) => Err(e),
    }
}

pub open spec fn with_path(
    st: ParseState,
    src: Result<Option<PathSource>, Seq<char>>,
    path: Seq<char>,
) -> Result<ParseState, Seq<char>> {
    match src {
        Ok(s) => Ok(ParseState { output_path_source: s, output_path: Some(path), ..st }),
        Err(e) => Err(e),
    }
}

pub open spec fn with_format(
    st: ParseState,
    sel: Result<Option<FormatFlag>, Seq<char>>,
    format: OutputFormat,
) -> Result<ParseState, Seq<char>> {
    match sel {
        Ok(s) => Ok(ParseState { selected_output_flag: s, output_format: format, ..st }),
        Err(e) => Err(e),
    }
}

/// `-o`, `--output` and `--output=PATH`.
pub open spec fn on_output(
    st: ParseState,
    value: Option<Seq<char>>,
    usage: Seq<char>,
) -> Result<ParseState, Seq<char>> {
    match value {
        None => Err(missing_value_msg("--output"@, usage)),
        Some(v) => if st.output_to_stdout {
            Err("cannot use both --output and --stdout; remove one"@)
        } else {
            with_path(st, ensure_path_source_spec(st.output_path_source, PathSource::OutputFlag), v)
        },
    }
}

/// `--speakers` or `--text` with an optional separate value.
pub open spec fn on_layout_flag(
    st: ParseState,
    flag: FormatFlag,
    next: Option<Seq<char>>,
    i: int,
) -> Result<(ParseState, int), Seq<char>> {
    let sel = ensure_format_spec(st.selected_output_flag, flag);
    let default_format = if flag == FormatFlag::Speakers {
        OutputFormat::Speakers(SpeakersFormat::Timestamped)
    } else {
        OutputFormat::Text(TextFormat::Timestamped)
    };
    let chosen: Option<OutputFormat> = match next {
        Some(v) => if flag == FormatFlag::Speakers {
            match SpeakersFormat::from_cli_spec(v) {
                Some(f) => Some(OutputFormat::Speakers(f)),
                None => None,
            }
        } else {
            match TextFormat::from_cli_spec(v) {
                Some(f) => Some(OutputFormat::Text(f)),
                None => None,
            }
        },
        None => None,
    };
    match chosen {
        Some(f) => advance(with_format(st, sel, f), i + 2),
        None => advance(with_format(st, sel, default_format), i + 1),
    }
}

/// `--speakers=VALUE` or `--text=VALUE`.
pub open spec fn on_layout_value(st: ParseState, flag: FormatFlag, v: Seq<char>) -> Result<
    ParseState,
    Seq<char>,
> {
    let sel = ensure_format_spec(st.selected_output_flag, flag);
    if sel is Err {
        Err(sel->Err_0)
    } else if flag == FormatFlag::Speakers {
        match SpeakersFormat::from_cli_spec(v) {
            Some(f) => with_format(st, sel, OutputFormat::Speakers(f)),
            None => Err(
                "invalid --speakers value "@ + debug_quoted(v) + "; expected plain or timestamps"@,
            ),
        }
    } else {
        match TextFormat::from_cli_spec(v) {
            Some(f) => with_format(st, sel, OutputFormat::Text(f)),
            None => Err(
                "invalid --text value "@ + debug_quoted(v) + "; expected plain or timestamps"@,
            ),
        }
    }
}

/// `-d` / `--diarize` with an optional separate model value.
pub open spec fn on_diarize(st: ParseState, next: Option<Seq<char>>, i: int) -> Result<
    (ParseState, int),
    Seq<char>,
> {
    match next {
        Some(v) => if v == "none"@ {
            Err("use --no-diarization or -D instead of `--diarize none`"@)
        } else {
            match DiarizationBackend::from_cli_spec(v) {
                Some(b) => advance(select_spec(st, SelectionSource::Diarize, Some(b)), i + 2),
                None => advance(
                    select_spec(st, SelectionSource::Diarize, Some(DiarizationBackend::Coreml)),
                    i + 1,
                ),
            }
        },
        None => advance(
            select_spec(st, SelectionSource::Diarize, Some(DiarizationBackend::Coreml)),
            i + 1,
        ),
    }
}

/// `--diarize=MODEL`.
pub open spec fn on_diarize_value(st: ParseState, v: Seq<char>) -> Result<ParseState, Seq<char>> {
    if v == "none"@ {
        Err("use --no-diarization or -D instead of `--diarize none`"@)
    } else {
        match model_value_spec(v) {
            Ok(b) => select_spec(st, SelectionSource::Diarize, Some(b)),
            Err(e) => Err(e),
        }
    }
}

/// `--backend VALUE` and `--backend=VALUE`.
pub open spec fn on_backend_value(st: ParseState, v: Seq<char>) -> Result<ParseState, Seq<char>> {
    match backend_value_spec(v) {
        Ok(req) => select_spec(st, SelectionSource::Backend, req),
        Err(e) => Err(e),
    }
}

/// Which of the numeric flags is being read.
#[derive(Clone, Copy, Debug, PartialEq, Eq, Structural)]
pub enum NumericFlag {
    Threshold,
    Chunk,
    Overlap,
}

pub open spec fn numeric_flag_name(f: NumericFlag) -> Seq<char> {
    match f {
        NumericFlag::Threshold => "--threshold"@,
        NumericFlag::Chunk => "--chunk"@,
        NumericFlag::Overlap => "--overlap"@,
    }
}

/// `--threshold N`, `--chunk N` and `--overlap N`.
pub open spec fn on_numeric(
    st: ParseState,
    flag: NumericFlag,
    value: Option<Seq<char>>,
    number: Option<u64>,
    usage: Seq<char>,
) -> Result<ParseState, Seq<char>> {
    match value {
        None => Err(missing_value_msg(numeric_flag_name(flag), usage)),
        Some(v) => match number {
            None => Err(
                "invalid "@ + numeric_flag_name(flag) + " value "@ + debug_quoted(v) + "\n"@
                    + usage,
            ),
            Some(b) => match flag {
                NumericFlag::Threshold => Ok(ParseState { threshold: Some(b), ..st }),
                NumericFlag::Chunk => if ieee_lt(b, ZERO_BITS) {
                    Err("--chunk must be >= 0"@)
                } else {
                    Ok(ParseState { chunk_override: Some(b), ..st })
                },
                NumericFlag::Overlap => if ieee_lt(b, ZERO_BITS) {
                    Err("--overlap must be >= 0"@)
                } else {
                    Ok(ParseState { overlap_override: Some(b), ..st })
                },
            },
        },
    }
}

/// `--num-speakers N`.
pub open spec fn on_num_speakers(st: ParseState, value: Option<Seq<char>>, usage: Seq<char>) -> Result<
    ParseState,
    Seq<char>,
> {
    match value {
        None => Err(missing_value_msg("--num-speakers"@, usage)),
        Some(v) => match usize_from_str(v) {
            None => Err("invalid --num-speakers value "@ + debug_quoted(v) + "\n"@ + usage),
            Some(n) => if n == 0 {
                Err("--num-speakers must be >= 1"@)
            } else {
                Ok(ParseState { num_speakers: Some(n), ..st })
            },
        },
    }
}

/// An argument that is not a known flag.
pub open spec fn on_other(st: ParseState, a: Seq<char>, usage: Seq<char>) -> Result<
    ParseState,
    Seq<char>,
> {
    if has_prefix(a, "--"@) {
        Err("unknown argument "@ + debug_quoted(a) + "\n"@ + usage)
    } else if has_prefix(a, "-"@) && a != "-"@ {
        Err(
            "unknown argument "@ + debug_quoted(a)
                + "; if you meant a path starting with `-`, prefix it with `./`\n"@ + usage,
        )
    } else if st.input is None {
        Ok(ParseState { input: Some(a), ..st })
    } else if !st.output_to_stdout && st.output_path is None {
        if a == "-"@ {
            Ok(ParseState { output_to_stdout: true, ..st })
        } else {
            with_path(st, ensure_path_source_spec(st.output_path_source, PathSource::Positional), a)
        }
    } else if st.output_path_source == Some(PathSource::OutputFlag) {
        Err(
            "cannot use both positional output path and --output for output path; choose one and remove the other"@,
        )
    } else {
        Err("unexpected positional argument "@ + debug_quoted(a) + "\n"@ + usage)
    }
}

pub open spec fn arg_at(args: Seq<Seq<char>>, k: int) -> Option<Seq<char>> {
    if 0 <= k < args.len() {
        Some(args[k])
    } else {
        None
    }
}

pub open spec fn number_at(nums: Seq<Option<u64>>, k: int) -> Option<u64> {
    if 0 <= k < nums.len() {
        nums[k]
    } else {
        None
    }
}

/// Reads the argument at `i` (and its value, for flags that take one) and
/// gives the next state and the index of the next unread argument.
pub open spec fn parse_step(
    st: ParseState,
    args: Seq<Seq<char>>,
    nums: Seq<Option<u64>>,
    i: int,
    usage: Seq<char>,
) -> Result<(ParseState, int), Seq<char>> {
    let a = args[i];
    let next = arg_at(args, i + 1);
    if a == "--output"@ || a == "-o"@ {
        advance(on_output(st, next, usage), i + 2)
    } else if has_prefix(a, "--output="@) {
        let v = a.skip("--output="@.len() as int);
        advance(on_output(st, if v.len() == 0 { None } else { Some(v) }, usage), i + 1)
    } else if a == "--model-dir"@ {
        match next {
            None => Err(missing_value_msg("--model-dir"@, usage)),
            Some(v) => Ok((ParseState { model_dir: v, ..st }, i + 2)),
        }
    } else if a == "--model-package"@ {
        match next {
            None => Err(missing_value_msg("--model-package"@, usage)),
            Some(v) => Ok((ParseState { model_package: v, ..st }, i + 2)),
        }
    } else if a == "--model-url"@ {
        match next {
            None => Err(missing_value_msg("--model-url"@, usage)),
            Some(v) => Ok((ParseState { model_url: v, ..st }, i + 2)),
        }
    } else if a == "--stdout"@ {
        if st.output_path is Some {
            Err("cannot use both --stdout and an explicit output path; remove one"@)
        } else {
            Ok((ParseState { output_to_stdout: true, ..st }, i + 1))
        }
    } else if a == "--json"@ {
        advance(
            with_format(
                st,
                ensure_format_spec(st.selected_output_flag, FormatFlag::Json),
                OutputFormat::Json,
            ),
            i + 1,
        )
    } else if a == "--raw"@ {
        if st.clean_flag == Some(CleanFlag::Clean) {
            Err("cannot use both --raw and --clean; remove one"@)
        } else {
            Ok((ParseState { clean_flag: Some(CleanFlag::Raw), clean_output: false, ..st }, i + 1))
        }
    } else if a == "-c"@ || a == "--clean"@ {
        if st.clean_flag == Some(CleanFlag::Raw) {
            Err("cannot use both --raw and --clean; remove one"@)
        } else {
            Ok((ParseState { clean_flag: Some(CleanFlag::Clean), clean_output: true, ..st }, i + 1))
        }
    } else if a == "--speakers"@ {
        on_layout_flag(st, FormatFlag::Speakers, next, i)
    } else if has_prefix(a, "--speakers="@) {
        advance(
            on_layout_value(st, FormatFlag::Speakers, a.skip("--speakers="@.len() as int)),
            i + 1,
        )
    } else if a == "--text"@ {
        on_layout_flag(st, FormatFlag::Text, next, i)
    } else if has_prefix(a, "--text="@) {
        advance(on_layout_value(st, FormatFlag::Text, a.skip("--text="@.len() as int)), i + 1)
    } else if a == "--srt"@ {
        advance(
            with_format(
                st,
                ensure_format_spec(st.selected_output_flag, FormatFlag::Srt),
                OutputFormat::Subtitle(SubtitleFormat::Srt),
            ),
            i + 1,
        )
    } else if a == "--vtt"@ {
        advance(
            with_format(
                st,
                ensure_format_spec(st.selected_output_flag, FormatFlag::Vtt),
                OutputFormat::Subtitle(SubtitleFormat::Vtt),
            ),
            i + 1,
        )
    } else if a == "--local"@ || a == "-l"@ || a == "--prefer-local-for-remote"@ {
        Ok((ParseState { force_local_for_remote: true, ..st }, i + 1))
    } else if a == "--backend"@ {
        match next {
            None => Err(missing_value_msg("--backend"@, usage)),
            Some(v) => advance(on_backend_value(st, v), i + 2),
        }
    } else if has_prefix(a, "--backend="@) {
        advance(on_backend_value(st, a.skip("--backend="@.len() as int)), i + 1)
    } else if a == "-d"@ || a == "--diarize"@ {
        on_diarize(st, next, i)
    } else if has_prefix(a, "--diarize="@) {
        advance(on_diarize_value(st, a.skip("--diarize="@.len() as int)), i + 1)
    } else if a == "-D"@ || a == "--no-diarization"@ {
        advance(select_spec(st, SelectionSource::NoDiarization, None), i + 1)
    } else if a == "--num-speakers"@ || a == "-n"@ {
        advance(on_num_speakers(st, next, usage), i + 2)
    } else if a == "-t"@ || a == "--threshold"@ {
        advance(
            on_numeric(st, NumericFlag::Threshold, next, number_at(nums, i + 1), usage),
            i + 2,
        )
    } else if a == "--chunk"@ || a == "--chunk-seconds"@ {
        advance(on_numeric(st, NumericFlag::Chunk, next, number_at(nums, i + 1), usage), i + 2)
    } else if a == "--overlap"@ || a == "--chunk-overlap-seconds"@ {
        advance(on_numeric(st, NumericFlag::Overlap, next, number_at(nums, i + 1), usage), i + 2)
    } else {
        advance(on_other(st, a, usage), i + 1)
    }
}

/// Reads the arguments from index `i` on.
pub open spec fn parse_run(
    st: ParseState,
    args: Seq<Seq<char>>,
    nums: Seq<Option<u64>>,
    i: int,
    usage: Seq<char>,
) -> Result<ParseState, Seq<char>>
    decreases args.len() - i,
{
    if i < 0 || i >= args.len() {
        Ok(st)
    } else {
        match parse_step(st, args, nums, i, usage) {
            Err(e) => Err(e),
            Ok((s2, j)) => if i < j <= args.len() {
                parse_run(s2, args, nums, j, usage)
            } else {
                Ok(s2)
            },
        }
    }
}

pub open spec fn initial_state(model_dir: Seq<char>, model_package: Seq<char>, model_url: Seq<char>) -> ParseState {
    ParseState {
        model_dir,
        model_package,
        model_url,
        input: None,
        output_path: None,
        output_to_stdout: false,
        output_path_source: None,
        output_format: OutputFormat::Speakers(SpeakersFormat::Timestamped),
        selected_output_flag: None,
        clean_output: true,
        clean_flag: None,
        force_local_for_remote: false,
        chunk_override: None,
        overlap_override: None,
        backend: None,
        backend_explicit: false,
        selection_source: None,
        num_speakers: None,
        threshold: None,
    }
}

/// The backend after defaults: coreml when nothing was chosen and the helper
/// is available.
pub open spec fn effective_backend(st: ParseState, available: bool) -> Option<DiarizationBackend> {
    if st.backend is None && !st.backend_explicit && available {
        Some(DiarizationBackend::Coreml)
    } else {
        st.backend
    }
}

/// The warning shown when diarization flags come with a text output mode.
pub open spec fn text_mode_notice_spec() -> Seq<char> {
    "speaker diarization skipped: text output modes never run diarization, so the diarization flags are ignored"@
}

/// Whether the command line asked for diarization in any way: a backend
/// (`--backend none` included), a speaker count or a threshold.
pub open spec fn asks_for_diarization(st: ParseState) -> bool {
    ||| st.backend is Some
    ||| st.selection_source == Some(SelectionSource::Backend)
    ||| st.num_speakers is Some
    ||| st.threshold is Some
}

/// Rules that relate flags to each other, then defaults.  Text output modes
/// never run diarization: their diarization flags are ignored with a warning.
pub open spec fn finish_spec(st: ParseState, status: FluidaudioBinaryStatus, usage: Seq<char>) -> Result<
    CliArgsSpec,
    Seq<char>,
> {
    let available = status.is_available();
    let text_mode = st.output_format is Text;
    let backend = if text_mode {
        None
    } else {
        effective_backend(st, available)
    };
    let notice = if text_mode && asks_for_diarization(st) {
        Some(text_mode_notice_spec())
    } else if st.backend is None && !st.backend_explicit && !available {
        notice_spec(status)
    } else {
        None
    };
    let lseend = backend == Some(DiarizationBackend::LseendDihard3);
    let threshold = if lseend && st.threshold is None {
        Some(DEFAULT_LSEEND_THRESHOLD_BITS)
    } else {
        st.threshold
    };
    let requested_chunk = match st.chunk_override {
        Some(c) => c,
        None => DEFAULT_CHUNK_SECONDS_BITS,
    };
    if st.input is None {
        Err("missing input path\n"@ + usage)
    } else if !text_mode && backend is None && st.num_speakers is Some {
        Err("--num-speakers requires diarization; remove --num-speakers or use --diarize"@)
    } else if !text_mode && backend is None && st.threshold is Some {
        Err(
            "--threshold requires diarization; remove --threshold or use `--diarize lseend-dihard3`"@,
        )
    } else if st.num_speakers is Some && lseend {
        Err(
            "--num-speakers is not supported with `--diarize lseend-dihard3`; remove --num-speakers or switch to coreml"@,
        )
    } else if !text_mode && threshold is Some && !lseend {
        Err(
            "--threshold only works with `--diarize lseend-dihard3`; remove --threshold or switch diarization modes"@,
        )
    } else {
        let chunking = !ieee_eq(requested_chunk, ZERO_BITS);
        let overlap = match st.overlap_override {
            Some(o) => o,
            None => if chunking {
                DEFAULT_CHUNK_OVERLAP_SECONDS_BITS
            } else {
                ZERO_BITS
            },
        };
        if !chunking && ieee_lt(ZERO_BITS, overlap) {
            Err(
                "--overlap requires chunking to stay enabled; remove --overlap or set --chunk to a positive value"@,
            )
        } else if chunking && ieee_le(requested_chunk, overlap) {
            Err("--overlap must be smaller than --chunk"@)
        } else {
            Ok(
                CliArgsSpec {
                    model_dir: st.model_dir,
                    model_package: st.model_package,
                    model_url: st.model_url,
                    input: st.input->Some_0,
                    output_path: if st.output_to_stdout {
                        None
                    } else {
                        st.output_path
                    },
                    output_to_stdout: st.output_to_stdout,
                    output_format: st.output_format,
                    clean_output: st.clean_output,
                    force_local_for_remote: st.force_local_for_remote,
                    chunk_seconds: if chunking {
                        Some(requested_chunk)
                    } else {
                        None
                    },
                    chunk_overlap_seconds: if chunking {
                        overlap
                    } else {
                        ZERO_BITS
                    },
                    diarization_notice: notice,
                    diarization: match backend {
                        Some(b) => Some(
                            DiarizationRequest {
                                backend: b,
                                num_speakers: st.num_speakers,
                                threshold: match threshold {
                                    Some(t) => Some(Binary64 { bits: t }),
                                    None => None,
                                },
                            },
                        ),
                        None => None,
                    },
                },
            )
        }
    }
}

/// What parsing `args` gives.
pub open spec fn parse_spec(
    args: Seq<Seq<char>>,
    nums: Seq<Option<u64>>,
    status: FluidaudioBinaryStatus,
    model_dir: Seq<char>,
    model_package: Seq<char>,
    model_url: Seq<char>,
    usage: Seq<char>,
) -> Result<CliArgsSpec, Seq<char>> {
    if args.len() == 0 {
        Err(usage)
    } else {
        match parse_run(initial_state(model_dir, model_package, model_url), args, nums, 0, usage) {
            Err(e) => Err(e),
            Ok(st) => finish_spec(st, status, usage),
        }
    }
}

/// What every successful parse satisfies.
pub open spec fn consistent(a: CliArgsSpec) -> bool {
    &&& a.output_to_stdout ==> a.output_path is None
    &&& a.diarization matches Some(req) ==> {
        &&& req.backend == DiarizationBackend::LseendDihard3 <==> req.threshold is Some
        &&& req.num_speakers matches Some(n) ==> n >= 1 && req.backend
            == DiarizationBackend::Coreml
    }
    &&& a.chunk_seconds is None ==> a.chunk_overlap_seconds == ZERO_BITS
    &&& a.chunk_seconds matches Some(c) ==> !ieee_eq(c, ZERO_BITS) && !ieee_le(
        c,
        a.chunk_overlap_seconds,
    )
    &&& !ieee_lt(a.chunk_overlap_seconds, ZERO_BITS)
    &&& a.chunk_seconds matches Some(c) ==> {
        &&& !ieee_lt(c, ZERO_BITS)
        &&& !is_nan(c) ==> ieee_lt(ZERO_BITS, c)
        &&& !is_nan(c) && !is_nan(a.chunk_overlap_seconds) ==> ieee_le(
            ZERO_BITS,
            a.chunk_overlap_seconds,
        ) && ieee_lt(a.chunk_overlap_seconds, c)
    }
}

// ---------------------------------------------------------------------------
// Executable parser
// ---------------------------------------------------------------------------

/// The parser's state between two flags.
pub struct ArgState {
    pub model_dir: String,
    pub model_package: String,
    pub model_url: String,
    pub input: Option<String>,
    pub output_path: Option<String>,
    pub output_to_stdout: bool,
    pub output_path_source: Option<PathSource>,
    pub output_format: OutputFormat,
    pub selected_output_flag: Option<FormatFlag>,
    pub clean_output: bool,
    pub clean_flag: Option<CleanFlag>,
    pub force_local_for_remote: bool,
    pub chunk_override: Option<u64>,
    pub overlap_override: Option<u64>,
    pub backend: Option<DiarizationBackend>,
    pub backend_explicit: bool,
    pub selection_source: Option<SelectionSource>,
    pub num_speakers: Option<usize>,
    pub threshold: Option<u64>,
}

impl ArgState {
    pub open spec fn view(&self) -> ParseState {
        ParseState {
            model_dir: self.model_dir@,
            model_package: self.model_package@,
            model_url: self.model_url@,
            input: opt_view(self.input),
            output_path: opt_view(self.output_path),
            output_to_stdout: self.output_to_stdout,
            output_path_source: self.output_path_source,
            output_format: self.output_format,
            selected_output_flag: self.selected_output_flag,
            clean_output: self.clean_output,
            clean_flag: self.clean_flag,
            force_local_for_remote: self.force_local_for_remote,
            chunk_override: self.chunk_override,
            overlap_override: self.overlap_override,
            backend: self.backend,
            backend_explicit: self.backend_explicit,
            selection_source: self.selection_source,
            num_speakers: self.num_speakers,
            threshold: self.threshold,
        }
    }
}

pub open spec fn state_result(r: Result<ArgState, String>) -> Result<ParseState, Seq<char>> {
    match r {
        Ok(s) => Ok(s@),
        Err(e) => Err(e@),
    }
}

pub open spec fn step_result(r: Result<(ArgState, usize), String>) -> Result<
    (ParseState, int),
    Seq<char>,
> {
    match r {
        Ok((s, j)) => Ok((s@, j as int)),
        Err(e) => Err(e@),
    }
}

pub open spec fn err_view<T>(r: Result<T, String>) -> Result<T, Seq<char>> {
    match r {
        Ok(x) => Ok(x),
        Err(e) => Err(e@),
    }
}

fn debug_chars(v: &[char]) -> (r: String)
    ensures
        r@ == debug_quoted(v@),
{
    let s = string_of(v);
    debug_quote(s.as_str())
}

fn missing_value(flag: &str, usage: &String) -> (r: String)
    ensures
        r@ == missing_value_msg(flag@, usage@),
{
    let mut m = String::from_str("missing value for ");
    append_str(&mut m, flag);
    append_str(&mut m, "\n");
    append_str(&mut m, usage.as_str());
    m
}

fn format_flag_str(f: FormatFlag) -> (r: &'static str)
    ensures
        r@ == format_flag_name(f),
{
    match f {
        FormatFlag::Json => "--json",
        FormatFlag::Speakers => "--speakers",
        FormatFlag::Text => "--text",
        FormatFlag::Srt => "--srt",
        FormatFlag::Vtt => "--vtt",
    }
}

fn path_source_str(p: PathSource) -> (r: &'static str)
    ensures
        r@ == path_source_name(p),
{
    match p {
        PathSource::OutputFlag => "--output",
        PathSource::Positional => "positional output path",
    }
}

fn selection_str(s: SelectionSource) -> (r: &'static str)
    ensures
        r@ == selection_name(s),
{
    match s {
        SelectionSource::Backend => "--backend",
        SelectionSource::Diarize => "--diarize",
        SelectionSource::NoDiarization => "--no-diarization",
    }
}

fn ensure_format(sel: Option<FormatFlag>, flag: FormatFlag) -> (r: Result<Option<FormatFlag>, String>)
    ensures
        err_view(r) == ensure_format_spec(sel, flag),
{
    match sel {
        Some(prev) => {
            if prev != flag {
                let mut m = String::from_str(
                    "output format flags are mutually exclusive; received both ",
                );
                append_str(&mut m, format_flag_str(prev));
                append_str(&mut m, " and ");
                append_str(&mut m, format_flag_str(flag));
                Err(m)
            } else {
                Ok(sel)
            }
        },
        None => Ok(Some(flag)),
    }
}

fn ensure_path_source(src: Option<PathSource>, s: PathSource) -> (r: Result<Option<PathSource>, String>)
    ensures
        err_view(r) == ensure_path_source_spec(src, s),
{
    match src {
        Some(prev) => {
            let mut m = String::from_str("cannot use both ");
            append_str(&mut m, path_source_str(prev));
            append_str(&mut m, " and ");
            append_str(&mut m, path_source_str(s));
            append_str(&mut m, " for output path; choose one and remove the other");
            Err(m)
        },
        None => Ok(Some(s)),
    }
}

fn select(st: ArgState, source: SelectionSource, requested: Option<DiarizationBackend>) -> (r: Result<
    ArgState,
    String,
>)
    ensures
        state_result(r) == select_spec(st@, source, requested),
{
    match st.selection_source {
        Some(prev) => {
            if st.backend != requested {
                if st.backend.is_some() != requested.is_some() {
                    Err(String::from_str("cannot combine --diarize with --no-diarization; choose one"))
                } else {
                    let mut m = String::from_str("cannot combine multiple diarization selections (");
                    append_str(&mut m, selection_str(prev));
                    append_str(&mut m, " and ");
                    append_str(&mut m, selection_str(source));
                    append_str(&mut m, "); choose one");
                    Err(m)
                }
            } else {
                Ok(st)
            }
        },
        None => {
            let mut st = st;
            st.backend_explicit = true;
            st.selection_source = Some(source);
            st.backend = requested;
            Ok(st)
        },
    }
}

fn model_value(v: &[char]) -> (r: Result<DiarizationBackend, String>)
    ensures
        err_view(r) == model_value_spec(v@),
{
    match DiarizationBackend::from_cli_chars(v) {
        Some(b) => Ok(b),
        None => {
            let mut m = String::from_str("invalid diarization mode ");
            let q = debug_chars(v);
            append_str(&mut m, q.as_str());
            append_str(&mut m, "; expected coreml or lseend-dihard3");
            Err(m)
        },
    }
}

fn backend_value(v: &[char]) -> (r: Result<Option<DiarizationBackend>, String>)
    ensures
        err_view(r) == backend_value_spec(v@),
{
    if chars_eq(v, "none") {
        Ok(None)
    } else {
        match model_value(v) {
            Ok(b) => Ok(Some(b)),
            Err(e) => Err(e),
        }
    }
}

fn advance_exec(r: Result<ArgState, String>, j: usize) -> (out: Result<(ArgState, usize), String>)
    ensures
        step_result(out) == advance(state_result(r), j as int),
{
    match r {
        Ok(s) => Ok((s, j)),
        Err(e) => Err(e),
    }
}

fn with_path_exec(st: ArgState, src: Result<Option<PathSource>, String>, path: String) -> (r: Result<
    ArgState,
    String,
>)
    ensures
        state_result(r) == with_path(st@, err_view(src), path@),
{
    match src {
        Ok(s) => {
            let mut st = st;
            st.output_path_source = s;
            st.output_path = Some(path);
            Ok(st)
        },
        Err(e) => Err(e),
    }
}

fn with_format_exec(
    st: ArgState,
    sel: Result<Option<FormatFlag>, String>,
    format: OutputFormat,
) -> (r: Result<ArgState, String>)
    ensures
        state_result(r) == with_format(st@, err_view(sel), format),
{
    match sel {
        Ok(s) => {
            let mut st = st;
            st.selected_output_flag = s;
            st.output_format = format;
            Ok(st)
        },
        Err(e) => Err(e),
    }
}

fn on_output_exec(st: ArgState, value: Option<&[char]>, usage: &String) -> (r: Result<
    ArgState,
    String,
>)
    ensures
        state_result(r) == on_output(
            st@,
            match value {
                Some(v) => Some(v@),
                None => None,
            },
            usage@,
        ),
{
    match value {
        None => Err(missing_value("--output", usage)),
        Some(v) => {
            if st.output_to_stdout {
                Err(String::from_str("cannot use both --output and --stdout; remove one"))
            } else {
                let src = ensure_path_source(st.output_path_source, PathSource::OutputFlag);
                with_path_exec(st, src, string_of(v))
            }
        },
    }
}

fn strip_prefix_chars(v: &[char], lit: &str) -> (r: Option<Vec<char>>)
    ensures
        r is Some <==> has_prefix(v@, lit@),
        r matches Some(rest) ==> rest@ == v@.skip(lit@.len() as int),
{
    if starts_with_lit(v, lit) {
        let n = chars_of(lit).len();
        Some(suffix_from(v, n))
    } else {
        None
    }
}

pub open spec fn opt_chars(o: Option<&[char]>) -> Option<Seq<char>> {
    match o {
        Some(v) => Some(v@),
        None => None,
    }
}

fn on_layout_flag_exec(st: ArgState, flag: FormatFlag, next: Option<&[char]>, i: usize) -> (r: Result<
    (ArgState, usize),
    String,
>)
    requires
        i + 2 <= usize::MAX,
        flag == FormatFlag::Speakers || flag == FormatFlag::Text,
    ensures
        step_result(r) == on_layout_flag(st@, flag, opt_chars(next), i as int),
{
    let sel = ensure_format(st.selected_output_flag, flag);
    let default_format = if flag == FormatFlag::Speakers {
        OutputFormat::Speakers(SpeakersFormat::Timestamped)
    } else {
        OutputFormat::Text(TextFormat::Timestamped)
    };
    let chosen: Option<OutputFormat> = match next {
        Some(v) => {
            if flag == FormatFlag::Speakers {
                match SpeakersFormat::from_cli_chars(v) {
                    Some(f) => Some(OutputFormat::Speakers(f)),
                    None => None,
                }
            } else {
                match TextFormat::from_cli_chars(v) {
                    Some(f) => Some(OutputFormat::Text(f)),
                    None => None,
                }
            }
        },
        None => None,
    };
    match chosen {
        Some(f) => advance_exec(with_format_exec(st, sel, f), i + 2),
        None => advance_exec(with_format_exec(st, sel, default_format), i + 1),
    }
}

fn on_layout_value_exec(st: ArgState, flag: FormatFlag, v: &[char]) -> (r: Result<ArgState, String>)
    requires
        flag == FormatFlag::Speakers || flag == FormatFlag::Text,
    ensures
        state_result(r) == on_layout_value(st@, flag, v@),
{
    let sel = ensure_format(st.selected_output_flag, flag);
    match sel {
        Err(e) => Err(e),
        Ok(_) => {
            if flag == FormatFlag::Speakers {
                match SpeakersFormat::from_cli_chars(v) {
                    Some(f) => with_format_exec(st, sel, OutputFormat::Speakers(f)),
                    None => {
                        let mut m = String::from_str("invalid --speakers value ");
                        let q = debug_chars(v);
                        append_str(&mut m, q.as_str());
                        append_str(&mut m, "; expected plain or timestamps");
                        Err(m)
                    },
                }
            } else {
                match TextFormat::from_cli_chars(v) {
                    Some(f) => with_format_exec(st, sel, OutputFormat::Text(f)),
                    None => {
                        let mut m = String::from_str("invalid --text value ");
                        let q = debug_chars(v);
                        append_str(&mut m, q.as_str());
                        append_str(&mut m, "; expected plain or timestamps");
                        Err(m)
                    },
                }
            }
        },
    }
}

fn diarize_none_error() -> (r: String)
    ensures
        r@ == "use --no-diarization or -D instead of `--diarize none`"@,
{
    String::from_str("use --no-diarization or -D instead of `--diarize none`")
}

fn on_diarize_exec(st: ArgState, next: Option<&[char]>, i: usize) -> (r: Result<
    (ArgState, usize),
    String,
>)
    requires
        i + 2 <= usize::MAX,
    ensures
        step_result(r) == on_diarize(st@, opt_chars(next), i as int),
{
    match next {
        Some(v) => {
            if chars_eq(v, "none") {
                Err(diarize_none_error())
            } else {
                match DiarizationBackend::from_cli_chars(v) {
                    Some(b) => advance_exec(select(st, SelectionSource::Diarize, Some(b)), i + 2),
                    None => advance_exec(
                        select(st, SelectionSource::Diarize, Some(DiarizationBackend::Coreml)),
                        i + 1,
                    ),
                }
            }
        },
        None => advance_exec(
            select(st, SelectionSource::Diarize, Some(DiarizationBackend::Coreml)),
            i + 1,
        ),
    }
}

fn on_diarize_value_exec(st: ArgState, v: &[char]) -> (r: Result<ArgState, String>)
    ensures
        state_result(r) == on_diarize_value(st@, v@),
{
    if chars_eq(v, "none") {
        Err(diarize_none_error())
    } else {
        match model_value(v) {
            Ok(b) => select(st, SelectionSource::Diarize, Some(b)),
            Err(e) => Err(e),
        }
    }
}

fn on_backend_value_exec(st: ArgState, v: &[char]) -> (r: Result<ArgState, String>)
    ensures
        state_result(r) == on_backend_value(st@, v@),
{
    match backend_value(v) {
        Ok(req) => select(st, SelectionSource::Backend, req),
        Err(e) => Err(e),
    }
}

fn numeric_flag_str(f: NumericFlag) -> (r: &'static str)
    ensures
        r@ == numeric_flag_name(f),
{
    match f {
        NumericFlag::Threshold => "--threshold",
        NumericFlag::Chunk => "--chunk",
        NumericFlag::Overlap => "--overlap",
    }
}

fn on_numeric_exec(
    st: ArgState,
    flag: NumericFlag,
    value: Option<&[char]>,
    number: Option<u64>,
    usage: &String,
) -> (r: Result<ArgState, String>)
    ensures
        state_result(r) == on_numeric(st@, flag, opt_chars(value), number, usage@),
{
    match value {
        None => Err(missing_value(numeric_flag_str(flag), usage)),
        Some(v) => match number {
            None => {
                let mut m = String::from_str("invalid ");
                append_str(&mut m, numeric_flag_str(flag));
                append_str(&mut m, " value ");
                let q = debug_chars(v);
                append_str(&mut m, q.as_str());
                append_str(&mut m, "\n");
                append_str(&mut m, usage.as_str());
                Err(m)
            },
            Some(b) => {
                let mut st = st;
                match flag {
                    NumericFlag::Threshold => {
                        st.threshold = Some(b);
                        Ok(st)
                    },
                    NumericFlag::Chunk => {
                        if (Binary64 { bits: b }).lt(Binary64 { bits: ZERO_BITS }) {
                            Err(String::from_str("--chunk must be >= 0"))
                        } else {
                            st.chunk_override = Some(b);
                            Ok(st)
                        }
                    },
                    NumericFlag::Overlap => {
                        if (Binary64 { bits: b }).lt(Binary64 { bits: ZERO_BITS }) {
                            Err(String::from_str("--overlap must be >= 0"))
                        } else {
                            st.overlap_override = Some(b);
                            Ok(st)
                        }
                    },
                }
            },
        },
    }
}

fn on_num_speakers_exec(st: ArgState, value: Option<&[char]>, usage: &String) -> (r: Result<
    ArgState,
    String,
>)
    ensures
        state_result(r) == on_num_speakers(st@, opt_chars(value), usage@),
{
    match value {
        None => Err(missing_value("--num-speakers", usage)),
        Some(v) => match parse_usize(v) {
            None => {
                let mut m = String::from_str("invalid --num-speakers value ");
                let q = debug_chars(v);
                append_str(&mut m, q.as_str());
                append_str(&mut m, "\n");
                append_str(&mut m, usage.as_str());
                Err(m)
            },
            Some(n) => {
                if n == 0 {
                    Err(String::from_str("--num-speakers must be >= 1"))
                } else {
                    let mut st = st;
                    st.num_speakers = Some(n);
                    Ok(st)
                }
            },
        },
    }
}

fn on_other_exec(st: ArgState, a: &[char], usage: &String) -> (r: Result<ArgState, String>)
    ensures
        state_result(r) == on_other(st@, a@, usage@),
{
    if starts_with_lit(a, "--") {
        let mut m = String::from_str("unknown argument ");
        let q = debug_chars(a);
        append_str(&mut m, q.as_str());
        append_str(&mut m, "\n");
        append_str(&mut m, usage.as_str());
        Err(m)
    } else if starts_with_lit(a, "-") && !chars_eq(a, "-") {
        let mut m = String::from_str("unknown argument ");
        let q = debug_chars(a);
        append_str(&mut m, q.as_str());
        append_str(
            &mut m,
            "; if you meant a path starting with `-`, prefix it with `./`\n",
        );
        append_str(&mut m, usage.as_str());
        Err(m)
    } else if st.input.is_none() {
        let mut st = st;
        st.input = Some(string_of(a));
        Ok(st)
    } else if !st.output_to_stdout && st.output_path.is_none() {
        if chars_eq(a, "-") {
            let mut st = st;
            st.output_to_stdout = true;
            Ok(st)
        } else {
            let src = ensure_path_source(st.output_path_source, PathSource::Positional);
            with_path_exec(st, src, string_of(a))
        }
    } else if st.output_path_source == Some(PathSource::OutputFlag) {
        Err(
            String::from_str(
                "cannot use both positional output path and --output for output path; choose one and remove the other",
            ),
        )
    } else {
        let mut m = String::from_str("unexpected positional argument ");
        let q = debug_chars(a);
        append_str(&mut m, q.as_str());
        append_str(&mut m, "\n");
        append_str(&mut m, usage.as_str());
        Err(m)
    }
}

fn parse_step_exec(
    st: ArgState,
    args: &Vec<Vec<char>>,
    nums: &Vec<Option<u64>>,
    i: usize,
    usage: &String,
) -> (r: Result<(ArgState, usize), String>)
    requires
        i < args.len(),
        args.len() == nums.len(),
        args.len() + 2 <= usize::MAX,
    ensures
        step_result(r) == parse_step(st@, views(args@), nums@, i as int, usage@),
{
    let a = args[i].as_slice();
    let next: Option<&[char]> = if i + 1 < args.len() {
        Some(args[i + 1].as_slice())
    } else {
        None
    };
    let number: Option<u64> = if i + 1 < nums.len() {
        nums[i + 1]
    } else {
        None
    };
    assert(views(args@)[i as int] == a@);
    assert(arg_at(views(args@), i + 1) == opt_chars(next));
    assert(number_at(nums@, i + 1) == number);
    if chars_eq(a, "--output") || chars_eq(a, "-o") {
        return advance_exec(on_output_exec(st, next, usage), i + 2);
    }
    if let Some(v) = strip_prefix_chars(a, "--output=") {
        let value: Option<&[char]> = if v.len() == 0 {
            None
        } else {
            Some(v.as_slice())
        };
        return advance_exec(on_output_exec(st, value, usage), i + 1);
    }
    if chars_eq(a, "--model-dir") {
        return match next {
            None => Err(missing_value("--model-dir", usage)),
            Some(v) => {
                let mut st = st;
                st.model_dir = string_of(v);
                Ok((st, i + 2))
            },
        };
    }
    if chars_eq(a, "--model-package") {
        return match next {
            None => Err(missing_value("--model-package", usage)),
            Some(v) => {
                let mut st = st;
                st.model_package = string_of(v);
                Ok((st, i + 2))
            },
        };
    }
    if chars_eq(a, "--model-url") {
        return match next {
            None => Err(missing_value("--model-url", usage)),
            Some(v) => {
                let mut st = st;
                st.model_url = string_of(v);
                Ok((st, i + 2))
            },
        };
    }
    if chars_eq(a, "--stdout") {
        if st.output_path.is_some() {
            return Err(
                String::from_str("cannot use both --stdout and an explicit output path; remove one"),
            );
        }
        let mut st = st;
        st.output_to_stdout = true;
        return Ok((st, i + 1));
    }
    if chars_eq(a, "--json") {
        let sel = ensure_format(st.selected_output_flag, FormatFlag::Json);
        return advance_exec(with_format_exec(st, sel, OutputFormat::Json), i + 1);
    }
    if chars_eq(a, "--raw") {
        if st.clean_flag == Some(CleanFlag::Clean) {
            return Err(String::from_str("cannot use both --raw and --clean; remove one"));
        }
        let mut st = st;
        st.clean_flag = Some(CleanFlag::Raw);
        st.clean_output = false;
        return Ok((st, i + 1));
    }
    if chars_eq(a, "-c") || chars_eq(a, "--clean") {
        if st.clean_flag == Some(CleanFlag::Raw) {
            return Err(String::from_str("cannot use both --raw and --clean; remove one"));
        }
        let mut st = st;
        st.clean_flag = Some(CleanFlag::Clean);
        st.clean_output = true;
        return Ok((st, i + 1));
    }
    if chars_eq(a, "--speakers") {
        return on_layout_flag_exec(st, FormatFlag::Speakers, next, i);
    }
    if let Some(v) = strip_prefix_chars(a, "--speakers=") {
        return advance_exec(on_layout_value_exec(st, FormatFlag::Speakers, v.as_slice()), i + 1);
    }
    if chars_eq(a, "--text") {
        return on_layout_flag_exec(st, FormatFlag::Text, next, i);
    }
    if let Some(v) = strip_prefix_chars(a, "--text=") {
        return advance_exec(on_layout_value_exec(st, FormatFlag::Text, v.as_slice()), i + 1);
    }
    if chars_eq(a, "--srt") {
        let sel = ensure_format(st.selected_output_flag, FormatFlag::Srt);
        return advance_exec(
            with_format_exec(st, sel, OutputFormat::Subtitle(SubtitleFormat::Srt)),
            i + 1,
        );
    }
    if chars_eq(a, "--vtt") {
        let sel = ensure_format(st.selected_output_flag, FormatFlag::Vtt);
        return advance_exec(
            with_format_exec(st, sel, OutputFormat::Subtitle(SubtitleFormat::Vtt)),
            i + 1,
        );
    }
    if chars_eq(a, "--local") || chars_eq(a, "-l") || chars_eq(a, "--prefer-local-for-remote") {
        let mut st = st;
        st.force_local_for_remote = true;
        return Ok((st, i + 1));
    }
    if chars_eq(a, "--backend") {
        return match next {
            None => Err(missing_value("--backend", usage)),
            Some(v) => advance_exec(on_backend_value_exec(st, v), i + 2),
        };
    }
    if let Some(v) = strip_prefix_chars(a, "--backend=") {
        return advance_exec(on_backend_value_exec(st, v.as_slice()), i + 1);
    }
    if chars_eq(a, "-d") || chars_eq(a, "--diarize") {
        return on_diarize_exec(st, next, i);
    }
    if let Some(v) = strip_prefix_chars(a, "--diarize=") {
        return advance_exec(on_diarize_value_exec(st, v.as_slice()), i + 1);
    }
    if chars_eq(a, "-D") || chars_eq(a, "--no-diarization") {
        return advance_exec(select(st, SelectionSource::NoDiarization, None), i + 1);
    }
    if chars_eq(a, "--num-speakers") || chars_eq(a, "-n") {
        return advance_exec(on_num_speakers_exec(st, next, usage), i + 2);
    }
    if chars_eq(a, "-t") || chars_eq(a, "--threshold") {
        return advance_exec(
            on_numeric_exec(st, NumericFlag::Threshold, next, number, usage),
            i + 2,
        );
    }
    if chars_eq(a, "--chunk") || chars_eq(a, "--chunk-seconds") {
        return advance_exec(on_numeric_exec(st, NumericFlag::Chunk, next, number, usage), i + 2);
    }
    if chars_eq(a, "--overlap") || chars_eq(a, "--chunk-overlap-seconds") {
        return advance_exec(on_numeric_exec(st, NumericFlag::Overlap, next, number, usage), i + 2);
    }
    advance_exec(on_other_exec(st, a, usage), i + 1)
}

proof fn lemma_step_advances(
    st: ParseState,
    args: Seq<Seq<char>>,
    nums: Seq<Option<u64>>,
    i: int,
    usage: Seq<char>,
)
    requires
        0 <= i < args.len(),
    ensures
        parse_step(st, args, nums, i, usage) matches Ok((_s, j)) ==> i < j <= args.len(),
{
}

pub open spec fn cli_result(r: Result<CliArgs, String>) -> Result<CliArgsSpec, Seq<char>> {
    match r {
        Ok(a) => Ok(a@),
        Err(e) => Err(e@),
    }
}


fn finish_exec(st: ArgState, status: &FluidaudioBinaryStatus, usage: &String) -> (r: Result<
    CliArgs,
    String,
>)
    ensures
        cli_result(r) == finish_spec(st@, *status, usage@),
{
    let available = match status {
        FluidaudioBinaryStatus::Available => true,
        _ => false,
    };
    let input = match st.input {
        None => {
            let mut m = String::from_str("missing input path\n");
            append_str(&mut m, usage.as_str());
            return Err(m);
        },
        Some(input) => input,
    };
    let text_mode = match st.output_format {
        OutputFormat::Text(_) => true,
        _ => false,
    };
    let backend_flag = match st.selection_source {
        Some(SelectionSource::Backend) => true,
        _ => false,
    };
    let asks = st.backend.is_some() || backend_flag || st.num_speakers.is_some()
        || st.threshold.is_some();
    let notice = if text_mode && asks {
        Some(
            String::from_str(
                "speaker diarization skipped: text output modes never run diarization, so the diarization flags are ignored",
            ),
        )
    } else if st.backend.is_none() && !st.backend_explicit && !available {
        missing_diarization_notice(status)
    } else {
        None
    };
    let backend = if text_mode {
        None
    } else if st.backend.is_none() && !st.backend_explicit && available {
        Some(DiarizationBackend::Coreml)
    } else {
        st.backend
    };
    if !text_mode && backend.is_none() && st.num_speakers.is_some() {
        return Err(
            String::from_str(
                "--num-speakers requires diarization; remove --num-speakers or use --diarize",
            ),
        );
    }
    if !text_mode && backend.is_none() && st.threshold.is_some() {
        return Err(
            String::from_str(
                "--threshold requires diarization; remove --threshold or use `--diarize lseend-dihard3`",
            ),
        );
    }
    let lseend = backend == Some(DiarizationBackend::LseendDihard3);
    if st.num_speakers.is_some() && lseend {
        return Err(
            String::from_str(
                "--num-speakers is not supported with `--diarize lseend-dihard3`; remove --num-speakers or switch to coreml",
            ),
        );
    }
    let threshold = if lseend && st.threshold.is_none() {
        Some(DEFAULT_LSEEND_THRESHOLD_BITS)
    } else {
        st.threshold
    };
    if !text_mode && threshold.is_some() && !lseend {
        return Err(
            String::from_str(
                "--threshold only works with `--diarize lseend-dihard3`; remove --threshold or switch diarization modes",
            ),
        );
    }
    let requested_chunk = match st.chunk_override {
        Some(c) => c,
        None => DEFAULT_CHUNK_SECONDS_BITS,
    };
    let zero = Binary64 { bits: ZERO_BITS };
    let chunking = !(Binary64 { bits: requested_chunk }).ieee_equals(zero);
    let overlap = match st.overlap_override {
        Some(o) => o,
        None => if chunking {
            DEFAULT_CHUNK_OVERLAP_SECONDS_BITS
        } else {
            ZERO_BITS
        },
    };
    if !chunking && zero.lt(Binary64 { bits: overlap }) {
        return Err(
            String::from_str(
                "--overlap requires chunking to stay enabled; remove --overlap or set --chunk to a positive value",
            ),
        );
    }
    if chunking && (Binary64 { bits: requested_chunk }).le(Binary64 { bits: overlap }) {
        return Err(String::from_str("--overlap must be smaller than --chunk"));
    }
    let output_path = if st.output_to_stdout {
        None
    } else {
        st.output_path
    };
    let diarization = match backend {
        Some(b) => Some(
            DiarizationRequest {
                backend: b,
                num_speakers: st.num_speakers,
                threshold: match threshold {
                    Some(t) => Some(Binary64 { bits: t }),
                    None => None,
                },
            },
        ),
        None => None,
    };
    Ok(
        CliArgs {
            model_dir: st.model_dir,
            model_package: st.model_package,
            model_url: st.model_url,
            input,
            output_path,
            output_to_stdout: st.output_to_stdout,
            output_format: st.output_format,
            clean_output: st.clean_output,
            force_local_for_remote: st.force_local_for_remote,
            chunk_seconds: if chunking {
                Some(Binary64 { bits: requested_chunk })
            } else {
                None
            },
            chunk_overlap_seconds: Binary64 {
                bits: if chunking {
                    overlap
                } else {
                    ZERO_BITS
                },
            },
            diarization_notice: notice,
            diarization,
        },
    )
}

/// What the parser keeps of its state at every step: a speaker count, once
/// read, is at least one, and a chunk length or overlap, once read, is not
/// below zero.
pub open spec fn state_ok(st: ParseState) -> bool {
    &&& st.num_speakers matches Some(n) ==> n >= 1
    &&& st.chunk_override matches Some(c) ==> !ieee_lt(c, ZERO_BITS)
    &&& st.overlap_override matches Some(o) ==> !ieee_lt(o, ZERO_BITS)
}

pub open spec fn result_ok(r: Result<ParseState, Seq<char>>) -> bool {
    r matches Ok(s) ==> state_ok(s)
}

proof fn lemma_helpers_keep_ok(st: ParseState, a: Seq<char>, next: Option<Seq<char>>, num: Option<u64>, i: int, usage: Seq<char>)
    requires
        state_ok(st),
    ensures
        result_ok(on_output(st, next, usage)),
        forall|src: Result<Option<PathSource>, Seq<char>>, p: Seq<char>| result_ok(#[trigger] with_path(st, src, p)),
        forall|sel: Result<Option<FormatFlag>, Seq<char>>, f: OutputFormat| result_ok(#[trigger] with_format(st, sel, f)),
        forall|src: SelectionSource, req: Option<DiarizationBackend>| result_ok(#[trigger] select_spec(st, src, req)),
        forall|f: FormatFlag| result_ok(#[trigger] on_layout_value(st, f, a)),
        forall|f: FormatFlag| #[trigger] on_layout_flag(st, f, next, i) matches Ok((s, _j)) ==> state_ok(s),
        on_diarize(st, next, i) matches Ok((s, _j)) ==> state_ok(s),
        result_ok(on_diarize_value(st, a)),
        result_ok(on_backend_value(st, a)),
        forall|f: NumericFlag| result_ok(#[trigger] on_numeric(st, f, next, num, usage)),
        result_ok(on_num_speakers(st, next, usage)),
        result_ok(on_other(st, a, usage)),
{
}

#[verifier::spinoff_prover]
#[verifier::rlimit(60)]
proof fn lemma_step_keeps_ok(
    st: ParseState,
    args: Seq<Seq<char>>,
    nums: Seq<Option<u64>>,
    i: int,
    usage: Seq<char>,
)
    requires
        0 <= i < args.len(),
        state_ok(st),
    ensures
        parse_step(st, args, nums, i, usage) matches Ok((s, _j)) ==> state_ok(s),
{
    let a = args[i];
    let next = arg_at(args, i + 1);
    let num = number_at(nums, i + 1);
    lemma_helpers_keep_ok(st, a, next, num, i, usage);
    if has_prefix(a, "--output="@) {
        let v = a.skip("--output="@.len() as int);
        lemma_helpers_keep_ok(st, v, if v.len() == 0 { None } else { Some(v) }, num, i, usage);
    } else if has_prefix(a, "--speakers="@) {
        lemma_helpers_keep_ok(st, a.skip("--speakers="@.len() as int), next, num, i, usage);
    } else if has_prefix(a, "--text="@) {
        lemma_helpers_keep_ok(st, a.skip("--text="@.len() as int), next, num, i, usage);
    } else if has_prefix(a, "--backend="@) {
        lemma_helpers_keep_ok(st, a.skip("--backend="@.len() as int), next, num, i, usage);
    } else if has_prefix(a, "--diarize="@) {
        lemma_helpers_keep_ok(st, a.skip("--diarize="@.len() as int), next, num, i, usage);
    }
    match next {
        Some(v) => {
            lemma_helpers_keep_ok(st, v, next, num, i, usage);
        },
        None => {},
    }
}

proof fn lemma_run_keeps_ok(
    st: ParseState,
    args: Seq<Seq<char>>,
    nums: Seq<Option<u64>>,
    i: int,
    usage: Seq<char>,
)
    requires
        state_ok(st),
    ensures
        parse_run(st, args, nums, i, usage) matches Ok(s) ==> state_ok(s),
    decreases args.len() - i,
{
    if 0 <= i < args.len() {
        lemma_step_keeps_ok(st, args, nums, i, usage);
        lemma_step_advances(st, args, nums, i, usage);
        match parse_step(st, args, nums, i, usage) {
            Err(_) => {},
            Ok((s2, j)) => {
                lemma_run_keeps_ok(s2, args, nums, j, usage);
            },
        }
    }
}

/// Every successful parse is consistent: `--stdout` leaves no output path,
/// a threshold comes exactly with the ls-eend backend, a speaker count only
/// with coreml and at least one, the overlap is never below zero (and is zero
/// when chunking is off), and an enabled chunk length is positive and larger
/// than the overlap (for values that are numbers, not NaN).
pub proof fn lemma_finish_consistent(st: ParseState, status: FluidaudioBinaryStatus, usage: Seq<char>)
    requires
        state_ok(st),
    ensures
        finish_spec(st, status, usage) matches Ok(a) ==> consistent(a),
{
}

/// The flags that choose whether and how to diarize.
pub open spec fn is_selection_flag(a: Seq<char>) -> bool {
    ||| a == "-d"@
    ||| a == "--diarize"@
    ||| has_prefix(a, "--diarize="@)
    ||| a == "-D"@
    ||| a == "--no-diarization"@
    ||| a == "--backend"@
    ||| has_prefix(a, "--backend="@)
}

/// No diarization choice has been made yet.
pub open spec fn unselected(st: ParseState) -> bool {
    st.backend is None && !st.backend_explicit && st.selection_source is None
}

proof fn lemma_helpers_keep_unselected(
    st: ParseState,
    a: Seq<char>,
    next: Option<Seq<char>>,
    num: Option<u64>,
    i: int,
    usage: Seq<char>,
)
    requires
        unselected(st),
    ensures
        on_output(st, next, usage) matches Ok(s) ==> unselected(s),
        forall|src: Result<Option<PathSource>, Seq<char>>, p: Seq<char>| #[trigger] with_path(
            st,
            src,
            p,
        ) matches Ok(s) ==> unselected(s),
        forall|sel: Result<Option<FormatFlag>, Seq<char>>, f: OutputFormat| #[trigger] with_format(
            st,
            sel,
            f,
        ) matches Ok(s) ==> unselected(s),
        forall|f: FormatFlag| #[trigger] on_layout_value(st, f, a) matches Ok(s) ==> unselected(s),
        forall|f: FormatFlag| #[trigger] on_layout_flag(st, f, next, i) matches Ok((s, _j))
            ==> unselected(s),
        forall|f: NumericFlag| #[trigger] on_numeric(st, f, next, num, usage) matches Ok(s)
            ==> unselected(s),
        on_num_speakers(st, next, usage) matches Ok(s) ==> unselected(s),
        on_other(st, a, usage) matches Ok(s) ==> unselected(s),
{
}

#[verifier::spinoff_prover]
#[verifier::rlimit(60)]
proof fn lemma_step_keeps_unselected(
    st: ParseState,
    args: Seq<Seq<char>>,
    nums: Seq<Option<u64>>,
    i: int,
    usage: Seq<char>,
)
    requires
        0 <= i < args.len(),
        unselected(st),
        !is_selection_flag(args[i]),
    ensures
        parse_step(st, args, nums, i, usage) matches Ok((s, _j)) ==> unselected(s),
{
    let a = args[i];
    let next = arg_at(args, i + 1);
    let num = number_at(nums, i + 1);
    lemma_helpers_keep_unselected(st, a, next, num, i, usage);
    if has_prefix(a, "--output="@) {
        let v = a.skip("--output="@.len() as int);
        lemma_helpers_keep_unselected(st, v, if v.len() == 0 { None } else { Some(v) }, num, i, usage);
    } else if has_prefix(a, "--speakers="@) {
        lemma_helpers_keep_unselected(st, a.skip("--speakers="@.len() as int), next, num, i, usage);
    } else if has_prefix(a, "--text="@) {
        lemma_helpers_keep_unselected(st, a.skip("--text="@.len() as int), next, num, i, usage);
    }
    match next {
        Some(v) => {
            lemma_helpers_keep_unselected(st, v, next, num, i, usage);
        },
        None => {},
    }
}

proof fn lemma_run_keeps_unselected(
    st: ParseState,
    args: Seq<Seq<char>>,
    nums: Seq<Option<u64>>,
    i: int,
    usage: Seq<char>,
)
    requires
        unselected(st),
        forall|k: int| 0 <= k < args.len() ==> !is_selection_flag(#[trigger] args[k]),
    ensures
        parse_run(st, args, nums, i, usage) matches Ok(s) ==> unselected(s),
    decreases args.len() - i,
{
    if 0 <= i < args.len() {
        lemma_step_keeps_unselected(st, args, nums, i, usage);
        lemma_step_advances(st, args, nums, i, usage);
        match parse_step(st, args, nums, i, usage) {
            Err(_) => {},
            Ok((s2, j)) => {
                lemma_run_keeps_unselected(s2, args, nums, j, usage);
            },
        }
    }
}

/// The warning about a missing helper and the default backend.  Outside the
/// text modes: with the helper available no warning is set, a warning comes
/// only with a missing helper and then no diarization is requested, and with
/// the helper available and no diarization flag on the command line, coreml
/// is requested.  In a text mode the only warnings are the one about ignored
/// diarization flags and the missing-helper one.
pub proof fn lemma_default_diarization(
    args: Seq<Seq<char>>,
    nums: Seq<Option<u64>>,
    status: FluidaudioBinaryStatus,
    model_dir: Seq<char>,
    model_package: Seq<char>,
    model_url: Seq<char>,
    usage: Seq<char>,
)
    ensures
        parse_spec(args, nums, status, model_dir, model_package, model_url, usage) matches Ok(a)
            ==> {
            &&& !(a.output_format is Text) && status.is_available() ==> a.diarization_notice is None
            &&& !(a.output_format is Text) && a.diarization_notice is Some ==> !status.is_available()
                && a.diarization is None && a.diarization_notice == notice_spec(status)
            &&& a.output_format is Text && a.diarization_notice is Some ==> a.diarization_notice
                == Some(text_mode_notice_spec()) || (!status.is_available()
                && a.diarization_notice == notice_spec(status))
            &&& (forall|k: int| 0 <= k < args.len() ==> !is_selection_flag(#[trigger] args[k]))
                && status.is_available() && !(a.output_format is Text) ==> (a.diarization matches Some(
                r,
            ) && r.backend == DiarizationBackend::Coreml)
        },
{
    if args.len() > 0 {
        let st0 = initial_state(model_dir, model_package, model_url);
        if forall|k: int| 0 <= k < args.len() ==> !is_selection_flag(#[trigger] args[k]) {
            lemma_run_keeps_unselected(st0, args, nums, 0, usage);
        }
    }
}

/// No reading of a number is NaN.
pub open spec fn readings_are_numbers(nums: Seq<Option<u64>>) -> bool {
    forall|k: int| 0 <= k < nums.len() ==> (#[trigger] nums[k] matches Some(b) ==> !is_nan(b))
}

/// The chunk length and overlap read so far are numbers.
pub open spec fn overrides_are_numbers(st: ParseState) -> bool {
    &&& st.chunk_override matches Some(c) ==> !is_nan(c)
    &&& st.overlap_override matches Some(o) ==> !is_nan(o)
}

proof fn lemma_helpers_keep_numbers(
    st: ParseState,
    a: Seq<char>,
    next: Option<Seq<char>>,
    num: Option<u64>,
    i: int,
    usage: Seq<char>,
)
    requires
        overrides_are_numbers(st),
        num matches Some(b) ==> !is_nan(b),
    ensures
        on_output(st, next, usage) matches Ok(s) ==> overrides_are_numbers(s),
        forall|src: Result<Option<PathSource>, Seq<char>>, p: Seq<char>| #[trigger] with_path(
            st,
            src,
            p,
        ) matches Ok(s) ==> overrides_are_numbers(s),
        forall|sel: Result<Option<FormatFlag>, Seq<char>>, f: OutputFormat| #[trigger] with_format(
            st,
            sel,
            f,
        ) matches Ok(s) ==> overrides_are_numbers(s),
        forall|src: SelectionSource, req: Option<DiarizationBackend>| #[trigger] select_spec(
            st,
            src,
            req,
        ) matches Ok(s) ==> overrides_are_numbers(s),
        forall|f: FormatFlag| #[trigger] on_layout_value(st, f, a) matches Ok(s)
            ==> overrides_are_numbers(s),
        forall|f: FormatFlag| #[trigger] on_layout_flag(st, f, next, i) matches Ok((s, _j))
            ==> overrides_are_numbers(s),
        on_diarize(st, next, i) matches Ok((s, _j)) ==> overrides_are_numbers(s),
        on_diarize_value(st, a) matches Ok(s) ==> overrides_are_numbers(s),
        on_backend_value(st, a) matches Ok(s) ==> overrides_are_numbers(s),
        forall|f: NumericFlag| #[trigger] on_numeric(st, f, next, num, usage) matches Ok(s)
            ==> overrides_are_numbers(s),
        on_num_speakers(st, next, usage) matches Ok(s) ==> overrides_are_numbers(s),
        on_other(st, a, usage) matches Ok(s) ==> overrides_are_numbers(s),
{
}

#[verifier::spinoff_prover]
#[verifier::rlimit(60)]
proof fn lemma_step_keeps_numbers(
    st: ParseState,
    args: Seq<Seq<char>>,
    nums: Seq<Option<u64>>,
    i: int,
    usage: Seq<char>,
)
    requires
        0 <= i < args.len(),
        overrides_are_numbers(st),
        readings_are_numbers(nums),
    ensures
        parse_step(st, args, nums, i, usage) matches Ok((s, _j)) ==> overrides_are_numbers(s),
{
    let a = args[i];
    let next = arg_at(args, i + 1);
    let num = number_at(nums, i + 1);
    if 0 <= i + 1 < nums.len() {
        assert(nums[i + 1] matches Some(b) ==> !is_nan(b));
    }
    lemma_helpers_keep_numbers(st, a, next, num, i, usage);
    if has_prefix(a, "--output="@) {
        let v = a.skip("--output="@.len() as int);
        lemma_helpers_keep_numbers(st, v, if v.len() == 0 { None } else { Some(v) }, num, i, usage);
    } else if has_prefix(a, "--speakers="@) {
        lemma_helpers_keep_numbers(st, a.skip("--speakers="@.len() as int), next, num, i, usage);
    } else if has_prefix(a, "--text="@) {
        lemma_helpers_keep_numbers(st, a.skip("--text="@.len() as int), next, num, i, usage);
    } else if has_prefix(a, "--backend="@) {
        lemma_helpers_keep_numbers(st, a.skip("--backend="@.len() as int), next, num, i, usage);
    } else if has_prefix(a, "--diarize="@) {
        lemma_helpers_keep_numbers(st, a.skip("--diarize="@.len() as int), next, num, i, usage);
    }
    match next {
        Some(v) => {
            lemma_helpers_keep_numbers(st, v, next, num, i, usage);
        },
        None => {},
    }
}

proof fn lemma_run_keeps_numbers(
    st: ParseState,
    args: Seq<Seq<char>>,
    nums: Seq<Option<u64>>,
    i: int,
    usage: Seq<char>,
)
    requires
        overrides_are_numbers(st),
        readings_are_numbers(nums),
    ensures
        parse_run(st, args, nums, i, usage) matches Ok(s) ==> overrides_are_numbers(s),
    decreases args.len() - i,
{
    if 0 <= i < args.len() {
        lemma_step_keeps_numbers(st, args, nums, i, usage);
        lemma_step_advances(st, args, nums, i, usage);
        match parse_step(st, args, nums, i, usage) {
            Err(_) => {},
            Ok((s2, j)) => {
                lemma_run_keeps_numbers(s2, args, nums, j, usage);
            },
        }
    }
}

/// When no number on the command line reads as NaN, a successful parse has
/// an overlap of zero without chunking, and otherwise a positive chunk
/// length with an overlap at least zero and smaller than it; `--stdout`
/// leaves no output path.
pub proof fn lemma_chunking_is_sound(
    args: Seq<Seq<char>>,
    nums: Seq<Option<u64>>,
    status: FluidaudioBinaryStatus,
    model_dir: Seq<char>,
    model_package: Seq<char>,
    model_url: Seq<char>,
    usage: Seq<char>,
)
    requires
        readings_are_numbers(nums),
    ensures
        parse_spec(args, nums, status, model_dir, model_package, model_url, usage) matches Ok(a)
            ==> {
            &&& a.chunk_seconds is None ==> a.chunk_overlap_seconds == ZERO_BITS
            &&& a.chunk_seconds matches Some(c) ==> ieee_lt(ZERO_BITS, c) && ieee_le(
                ZERO_BITS,
                a.chunk_overlap_seconds,
            ) && ieee_lt(a.chunk_overlap_seconds, c)
            &&& a.output_to_stdout ==> a.output_path is None
        },
{
    if args.len() > 0 {
        let st0 = initial_state(model_dir, model_package, model_url);
        lemma_run_keeps_numbers(st0, args, nums, 0, usage);
        lemma_run_keeps_ok(st0, args, nums, 0, usage);
        match parse_run(st0, args, nums, 0, usage) {
            Ok(st) => {
                lemma_finish_consistent(st, status, usage);
            },
            Err(_) => {},
        }
    }
}

/// Whether `a` is one of the spellings of the flag that forces local
/// transcription of remote media.
pub open spec fn is_local_flag(a: Seq<char>) -> bool {
    a == "--local"@ || a == "-l"@ || a == "--prefer-local-for-remote"@
}

proof fn lemma_flag_spellings()
    ensures
        "--backend"@.len() > 0 && "--backend"@[0] == '-',
        "--backend="@.len() > 0 && "--backend="@[0] == '-',
        "--chunk"@.len() > 0 && "--chunk"@[0] == '-',
        "--chunk-overlap-seconds"@.len() > 0 && "--chunk-overlap-seconds"@[0] == '-',
        "--chunk-seconds"@.len() > 0 && "--chunk-seconds"@[0] == '-',
        "--clean"@.len() > 0 && "--clean"@[0] == '-',
        "--diarize"@.len() > 0 && "--diarize"@[0] == '-',
        "--diarize="@.len() > 0 && "--diarize="@[0] == '-',
        "--json"@.len() > 0 && "--json"@[0] == '-',
        "--local"@.len() > 0 && "--local"@[0] == '-',
        "--model-dir"@.len() > 0 && "--model-dir"@[0] == '-',
        "--model-package"@.len() > 0 && "--model-package"@[0] == '-',
        "--model-url"@.len() > 0 && "--model-url"@[0] == '-',
        "--no-diarization"@.len() > 0 && "--no-diarization"@[0] == '-',
        "--num-speakers"@.len() > 0 && "--num-speakers"@[0] == '-',
        "--output"@.len() > 0 && "--output"@[0] == '-',
        "--output="@.len() > 0 && "--output="@[0] == '-',
        "--overlap"@.len() > 0 && "--overlap"@[0] == '-',
        "--prefer-local-for-remote"@.len() > 0 && "--prefer-local-for-remote"@[0] == '-',
        "--raw"@.len() > 0 && "--raw"@[0] == '-',
        "--speakers"@.len() > 0 && "--speakers"@[0] == '-',
        "--speakers="@.len() > 0 && "--speakers="@[0] == '-',
        "--srt"@.len() > 0 && "--srt"@[0] == '-',
        "--stdout"@.len() > 0 && "--stdout"@[0] == '-',
        "--text"@.len() > 0 && "--text"@[0] == '-',
        "--text="@.len() > 0 && "--text="@[0] == '-',
        "--threshold"@.len() > 0 && "--threshold"@[0] == '-',
        "--vtt"@.len() > 0 && "--vtt"@[0] == '-',
        "-D"@.len() > 0 && "-D"@[0] == '-',
        "-c"@.len() > 0 && "-c"@[0] == '-',
        "-d"@.len() > 0 && "-d"@[0] == '-',
        "-l"@.len() > 0 && "-l"@[0] == '-',
        "-n"@.len() > 0 && "-n"@[0] == '-',
        "-o"@.len() > 0 && "-o"@[0] == '-',
        "-t"@.len() > 0 && "-t"@[0] == '-',
        "--local"@ != "-l"@,
{
    reveal_strlit("--backend");
    reveal_strlit("--backend=");
    reveal_strlit("--chunk");
    reveal_strlit("--chunk-overlap-seconds");
    reveal_strlit("--chunk-seconds");
    reveal_strlit("--clean");
    reveal_strlit("--diarize");
    reveal_strlit("--diarize=");
    reveal_strlit("--json");
    reveal_strlit("--local");
    reveal_strlit("--model-dir");
    reveal_strlit("--model-package");
    reveal_strlit("--model-url");
    reveal_strlit("--no-diarization");
    reveal_strlit("--num-speakers");
    reveal_strlit("--output");
    reveal_strlit("--output=");
    reveal_strlit("--overlap");
    reveal_strlit("--prefer-local-for-remote");
    reveal_strlit("--raw");
    reveal_strlit("--speakers");
    reveal_strlit("--speakers=");
    reveal_strlit("--srt");
    reveal_strlit("--stdout");
    reveal_strlit("--text");
    reveal_strlit("--text=");
    reveal_strlit("--threshold");
    reveal_strlit("--vtt");
    reveal_strlit("-D");
    reveal_strlit("-c");
    reveal_strlit("-d");
    reveal_strlit("-l");
    reveal_strlit("-n");
    reveal_strlit("-o");
    reveal_strlit("-t");
}

/// Flags that take no value and set one thing.
pub open spec fn is_plain_flag(a: Seq<char>) -> bool {
    ||| a == "--json"@
    ||| a == "--srt"@
    ||| a == "--vtt"@
    ||| a == "--raw"@
    ||| a == "-c"@
    ||| a == "--clean"@
    ||| a == "--stdout"@
    ||| a == "-D"@
    ||| a == "--no-diarization"@
    ||| is_local_flag(a)
}

/// The parser's state after one such flag, read right after the input.
pub open spec fn after_plain_flag(st: ParseState, a: Seq<char>) -> ParseState {
    if a == "--json"@ {
        ParseState { selected_output_flag: Some(FormatFlag::Json), output_format: OutputFormat::Json, ..st }
    } else if a == "--srt"@ {
        ParseState {
            selected_output_flag: Some(FormatFlag::Srt),
            output_format: OutputFormat::Subtitle(SubtitleFormat::Srt),
            ..st
        }
    } else if a == "--vtt"@ {
        ParseState {
            selected_output_flag: Some(FormatFlag::Vtt),
            output_format: OutputFormat::Subtitle(SubtitleFormat::Vtt),
            ..st
        }
    } else if a == "--raw"@ {
        ParseState { clean_flag: Some(CleanFlag::Raw), clean_output: false, ..st }
    } else if a == "-c"@ || a == "--clean"@ {
        ParseState { clean_flag: Some(CleanFlag::Clean), clean_output: true, ..st }
    } else if a == "--stdout"@ {
        ParseState { output_to_stdout: true, ..st }
    } else if a == "-D"@ || a == "--no-diarization"@ {
        ParseState {
            backend_explicit: true,
            selection_source: Some(SelectionSource::NoDiarization),
            backend: None,
            ..st
        }
    } else {
        ParseState { force_local_for_remote: true, ..st }
    }
}

proof fn lemma_plain_flag_step(
    st: ParseState,
    args: Seq<Seq<char>>,
    nums: Seq<Option<u64>>,
    usage: Seq<char>,
)
    requires
        args.len() == 2,
        is_plain_flag(args[1]),
        st.selected_output_flag is None,
        st.clean_flag is None,
        st.output_path is None,
        st.selection_source is None,
    ensures
        parse_step(st, args, nums, 1, usage) == Ok::<(ParseState, int), Seq<char>>(
            (after_plain_flag(st, args[1]), 2),
        ),
{
    let a = args[1];
    reveal_strlit("--backend");
    reveal_strlit("--backend=");
    reveal_strlit("--chunk");
    reveal_strlit("--chunk-overlap-seconds");
    reveal_strlit("--chunk-seconds");
    reveal_strlit("--clean");
    reveal_strlit("--diarize");
    reveal_strlit("--diarize=");
    reveal_strlit("--json");
    reveal_strlit("--local");
    reveal_strlit("--model-dir");
    reveal_strlit("--model-package");
    reveal_strlit("--model-url");
    reveal_strlit("--no-diarization");
    reveal_strlit("--num-speakers");
    reveal_strlit("--output");
    reveal_strlit("--output=");
    reveal_strlit("--overlap");
    reveal_strlit("--prefer-local-for-remote");
    reveal_strlit("--raw");
    reveal_strlit("--speakers");
    reveal_strlit("--speakers=");
    reveal_strlit("--srt");
    reveal_strlit("--stdout");
    reveal_strlit("--text");
    reveal_strlit("--text=");
    reveal_strlit("--threshold");
    reveal_strlit("--vtt");
    reveal_strlit("-D");
    reveal_strlit("-c");
    reveal_strlit("-d");
    reveal_strlit("-l");
    reveal_strlit("-n");
    reveal_strlit("-o");
    reveal_strlit("-t");
    if a == "--json"@ {
        assert(a != "--output"@);
        assert(a != "-o"@);
        assert(!has_prefix(a, "--output="@));
        assert(a != "--model-dir"@);
        assert(a != "--model-package"@);
        assert(a != "--model-url"@);
        assert(a != "--stdout"@);
    }
    if a == "--srt"@ {
        assert(a != "--output"@);
        assert(a != "-o"@);
        assert(!has_prefix(a, "--output="@));
        assert(a != "--model-dir"@);
        assert(a != "--model-package"@);
        assert(a != "--model-url"@);
        assert(a != "--stdout"@);
        assert(a != "--json"@);
        assert(a[2] != "--raw"@[2]);
        assert(a != "--raw"@);
        assert(a != "-c"@);
        assert(a != "--clean"@);
        assert(a != "--speakers"@);
        assert(!has_prefix(a, "--speakers="@));
        assert(a != "--text"@);
        assert(!has_prefix(a, "--text="@));
    }
    if a == "--vtt"@ {
        assert(a != "--output"@);
        assert(a != "-o"@);
        assert(!has_prefix(a, "--output="@));
        assert(a != "--model-dir"@);
        assert(a != "--model-package"@);
        assert(a != "--model-url"@);
        assert(a != "--stdout"@);
        assert(a != "--json"@);
        assert(a[2] != "--raw"@[2]);
        assert(a != "--raw"@);
        assert(a != "-c"@);
        assert(a != "--clean"@);
        assert(a != "--speakers"@);
        assert(!has_prefix(a, "--speakers="@));
        assert(a != "--text"@);
        assert(!has_prefix(a, "--text="@));
        assert(a[2] != "--srt"@[2]);
        assert(a != "--srt"@);
    }
    if a == "--raw"@ {
        assert(a != "--output"@);
        assert(a != "-o"@);
        assert(!has_prefix(a, "--output="@));
        assert(a != "--model-dir"@);
        assert(a != "--model-package"@);
        assert(a != "--model-url"@);
        assert(a != "--stdout"@);
        assert(a != "--json"@);
    }
    if a == "-c"@ {
        assert(a != "--output"@);
        assert(a[1] != "-o"@[1]);
        assert(a != "-o"@);
        assert(!has_prefix(a, "--output="@));
        assert(a != "--model-dir"@);
        assert(a != "--model-package"@);
        assert(a != "--model-url"@);
        assert(a != "--stdout"@);
        assert(a != "--json"@);
        assert(a != "--raw"@);
    }
    if a == "--clean"@ {
        assert(a != "--output"@);
        assert(a != "-o"@);
        assert(!has_prefix(a, "--output="@));
        assert(a != "--model-dir"@);
        assert(a != "--model-package"@);
        assert(a != "--model-url"@);
        assert(a != "--stdout"@);
        assert(a != "--json"@);
        assert(a != "--raw"@);
        assert(a != "-c"@);
    }
    if a == "--stdout"@ {
        assert(a[2] != "--output"@[2]);
        assert(a != "--output"@);
        assert(a != "-o"@);
        assert(!has_prefix(a, "--output="@));
        assert(a != "--model-dir"@);
        assert(a != "--model-package"@);
        assert(a != "--model-url"@);
    }
    if a == "-D"@ {
        assert(a != "--output"@);
        assert(a[1] != "-o"@[1]);
        assert(a != "-o"@);
        assert(!has_prefix(a, "--output="@));
        assert(a != "--model-dir"@);
        assert(a != "--model-package"@);
        assert(a != "--model-url"@);
        assert(a != "--stdout"@);
        assert(a != "--json"@);
        assert(a != "--raw"@);
        assert(a[1] != "-c"@[1]);
        assert(a != "-c"@);
        assert(a != "--clean"@);
        assert(a != "--speakers"@);
        assert(!has_prefix(a, "--speakers="@));
        assert(a != "--text"@);
        assert(!has_prefix(a, "--text="@));
        assert(a != "--srt"@);
        assert(a != "--vtt"@);
        assert(a != "--local"@);
        assert(a[1] != "-l"@[1]);
        assert(a != "-l"@);
        assert(a != "--prefer-local-for-remote"@);
        assert(a != "--backend"@);
        assert(!has_prefix(a, "--backend="@));
        assert(a[1] != "-d"@[1]);
        assert(a != "-d"@);
        assert(a != "--diarize"@);
        assert(!has_prefix(a, "--diarize="@));
    }
    if a == "--no-diarization"@ {
        assert(a != "--output"@);
        assert(a != "-o"@);
        assert(a.take(9)[2] != "--output="@[2]);
        assert(!has_prefix(a, "--output="@));
        assert(a != "--model-dir"@);
        assert(a != "--model-package"@);
        assert(a != "--model-url"@);
        assert(a != "--stdout"@);
        assert(a != "--json"@);
        assert(a != "--raw"@);
        assert(a != "-c"@);
        assert(a != "--clean"@);
        assert(a != "--speakers"@);
        assert(a.take(11)[2] != "--speakers="@[2]);
        assert(!has_prefix(a, "--speakers="@));
        assert(a != "--text"@);
        assert(a.take(7)[2] != "--text="@[2]);
        assert(!has_prefix(a, "--text="@));
        assert(a != "--srt"@);
        assert(a != "--vtt"@);
        assert(a != "--local"@);
        assert(a != "-l"@);
        assert(a != "--prefer-local-for-remote"@);
        assert(a != "--backend"@);
        assert(a.take(10)[2] != "--backend="@[2]);
        assert(!has_prefix(a, "--backend="@));
        assert(a != "-d"@);
        assert(a != "--diarize"@);
        assert(a.take(10)[2] != "--diarize="@[2]);
        assert(!has_prefix(a, "--diarize="@));
        assert(a != "-D"@);
    }
    if a == "--local"@ {
        assert(a != "--output"@);
        assert(a != "-o"@);
        assert(!has_prefix(a, "--output="@));
        assert(a != "--model-dir"@);
        assert(a != "--model-package"@);
        assert(a != "--model-url"@);
        assert(a != "--stdout"@);
        assert(a != "--json"@);
        assert(a != "--raw"@);
        assert(a != "-c"@);
        assert(a[2] != "--clean"@[2]);
        assert(a != "--clean"@);
        assert(a != "--speakers"@);
        assert(!has_prefix(a, "--speakers="@));
        assert(a != "--text"@);
        assert(a.take(7)[2] != "--text="@[2]);
        assert(!has_prefix(a, "--text="@));
        assert(a != "--srt"@);
        assert(a != "--vtt"@);
    }
    if a == "-l"@ {
        assert(a != "--output"@);
        assert(a[1] != "-o"@[1]);
        assert(a != "-o"@);
        assert(!has_prefix(a, "--output="@));
        assert(a != "--model-dir"@);
        assert(a != "--model-package"@);
        assert(a != "--model-url"@);
        assert(a != "--stdout"@);
        assert(a != "--json"@);
        assert(a != "--raw"@);
        assert(a[1] != "-c"@[1]);
        assert(a != "-c"@);
        assert(a != "--clean"@);
        assert(a != "--speakers"@);
        assert(!has_prefix(a, "--speakers="@));
        assert(a != "--text"@);
        assert(!has_prefix(a, "--text="@));
        assert(a != "--srt"@);
        assert(a != "--vtt"@);
        assert(a != "--local"@);
    }
    if a == "--prefer-local-for-remote"@ {
        assert(a != "--output"@);
        assert(a != "-o"@);
        assert(a.take(9)[2] != "--output="@[2]);
        assert(!has_prefix(a, "--output="@));
        assert(a != "--model-dir"@);
        assert(a != "--model-package"@);
        assert(a != "--model-url"@);
        assert(a != "--stdout"@);
        assert(a != "--json"@);
        assert(a != "--raw"@);
        assert(a != "-c"@);
        assert(a != "--clean"@);
        assert(a != "--speakers"@);
        assert(a.take(11)[2] != "--speakers="@[2]);
        assert(!has_prefix(a, "--speakers="@));
        assert(a != "--text"@);
        assert(a.take(7)[2] != "--text="@[2]);
        assert(!has_prefix(a, "--text="@));
        assert(a != "--srt"@);
        assert(a != "--vtt"@);
        assert(a != "--local"@);
        assert(a != "-l"@);
    }
}

/// Every spelling of the local-transcription flag (`--local`, `-l`,
/// `--prefer-local-for-remote`), given after an input that is not itself a
/// flag, parses into settings that force local transcription, keep that
/// input, and leave everything else at its default.
pub proof fn lemma_local_flag_aliases(
    input: Seq<char>,
    flag: Seq<char>,
    nums: Seq<Option<u64>>,
    status: FluidaudioBinaryStatus,
    model_dir: Seq<char>,
    model_package: Seq<char>,
    model_url: Seq<char>,
    usage: Seq<char>,
)
    requires
        is_local_flag(flag),
        input.len() > 0,
        input[0] != '-',
    ensures
        parse_spec(seq![input, flag], nums, status, model_dir, model_package, model_url, usage)
            matches Ok(a) && a.force_local_for_remote && a.input == input && a.output_path is None
            && !a.output_to_stdout && a.output_format == OutputFormat::Speakers(
            SpeakersFormat::Timestamped,
        ) && a.clean_output,
{
    lemma_flag_spellings();
    reveal_strlit("--local");
    reveal_strlit("-l");
    reveal_strlit("--prefer-local-for-remote");
    reveal_strlit("--");
    reveal_strlit("-");
    let args = seq![input, flag];
    let st0 = initial_state(model_dir, model_package, model_url);
    assert(args[0] == input);
    assert(args[1] == flag);
    assert(!has_prefix(input, "--"@) && !has_prefix(input, "-"@)) by {
        if has_prefix(input, "-"@) {
            assert(input.take(1)[0] == input[0]);
        }
        if has_prefix(input, "--"@) {
            assert(input.take(2)[0] == input[0]);
        }
    }
    assert forall|p: Seq<char>| p.len() > 0 && p[0] == '-' implies input != p && !has_prefix(input, p) by {
        if has_prefix(input, p) {
            assert(input.take(p.len() as int)[0] == input[0]);
        }
    }
    let st1 = ParseState { input: Some(input), ..st0 };
    assert(parse_step(st0, args, nums, 0, usage) == Ok::<(ParseState, int), Seq<char>>((st1, 1)));
    let st2 = ParseState { force_local_for_remote: true, ..st1 };
    lemma_plain_flag_step(st1, args, nums, usage);
    reveal_strlit("--json");
    reveal_strlit("--srt");
    reveal_strlit("--vtt");
    reveal_strlit("--raw");
    reveal_strlit("-c");
    reveal_strlit("--clean");
    reveal_strlit("--stdout");
    reveal_strlit("-D");
    reveal_strlit("--no-diarization");
    assert(after_plain_flag(st1, flag) == st2);
    assert(parse_run(st2, args, nums, 2, usage) == Ok::<ParseState, Seq<char>>(st2));
    assert(parse_run(st1, args, nums, 1, usage) == Ok::<ParseState, Seq<char>>(st2));
    assert(parse_run(st0, args, nums, 0, usage) == Ok::<ParseState, Seq<char>>(st2));
}

/// Each flag that takes no value, given after an input that is not itself a
/// flag, parses successfully and does what it says: `--json`, `--srt` and
/// `--vtt` choose that output, `--raw` turns cleaning off and `-c`/`--clean`
/// keeps it on, `--stdout` writes to standard output with no output path,
/// `-D`/`--no-diarization` asks for no diarization and warns about nothing,
/// and the local flags force local transcription; the input is kept.
pub proof fn lemma_plain_flags(
    input: Seq<char>,
    flag: Seq<char>,
    nums: Seq<Option<u64>>,
    status: FluidaudioBinaryStatus,
    model_dir: Seq<char>,
    model_package: Seq<char>,
    model_url: Seq<char>,
    usage: Seq<char>,
)
    requires
        is_plain_flag(flag),
        input.len() > 0,
        input[0] != '-',
    ensures
        parse_spec(seq![input, flag], nums, status, model_dir, model_package, model_url, usage)
            matches Ok(a) && a.input == input && {
            &&& flag == "--json"@ ==> a.output_format == OutputFormat::Json
            &&& flag == "--srt"@ ==> a.output_format == OutputFormat::Subtitle(SubtitleFormat::Srt)
            &&& flag == "--vtt"@ ==> a.output_format == OutputFormat::Subtitle(SubtitleFormat::Vtt)
            &&& flag == "--raw"@ ==> !a.clean_output
            &&& flag == "-c"@ || flag == "--clean"@ ==> a.clean_output
            &&& flag == "--stdout"@ ==> a.output_to_stdout && a.output_path is None
            &&& flag == "-D"@ || flag == "--no-diarization"@ ==> a.diarization is None
                && a.diarization_notice is None
            &&& is_local_flag(flag) ==> a.force_local_for_remote
        },
{
    lemma_flag_spellings();
    reveal_strlit("--backend");
    reveal_strlit("--backend=");
    reveal_strlit("--chunk");
    reveal_strlit("--chunk-overlap-seconds");
    reveal_strlit("--chunk-seconds");
    reveal_strlit("--clean");
    reveal_strlit("--diarize");
    reveal_strlit("--diarize=");
    reveal_strlit("--json");
    reveal_strlit("--local");
    reveal_strlit("--model-dir");
    reveal_strlit("--model-package");
    reveal_strlit("--model-url");
    reveal_strlit("--no-diarization");
    reveal_strlit("--num-speakers");
    reveal_strlit("--output");
    reveal_strlit("--output=");
    reveal_strlit("--overlap");
    reveal_strlit("--prefer-local-for-remote");
    reveal_strlit("--raw");
    reveal_strlit("--speakers");
    reveal_strlit("--speakers=");
    reveal_strlit("--srt");
    reveal_strlit("--stdout");
    reveal_strlit("--text");
    reveal_strlit("--text=");
    reveal_strlit("--threshold");
    reveal_strlit("--vtt");
    reveal_strlit("-D");
    reveal_strlit("-c");
    reveal_strlit("-d");
    reveal_strlit("-l");
    reveal_strlit("-n");
    reveal_strlit("-o");
    reveal_strlit("-t");
    reveal_strlit("--");
    reveal_strlit("-");
    let args = seq![input, flag];
    let st0 = initial_state(model_dir, model_package, model_url);
    assert(args[0] == input);
    assert(args[1] == flag);
    assert(!has_prefix(input, "--"@) && !has_prefix(input, "-"@)) by {
        if has_prefix(input, "-"@) {
            assert(input.take(1)[0] == input[0]);
        }
        if has_prefix(input, "--"@) {
            assert(input.take(2)[0] == input[0]);
        }
    }
    assert forall|p: Seq<char>| p.len() > 0 && p[0] == '-' implies input != p && !has_prefix(input, p) by {
        if has_prefix(input, p) {
            assert(input.take(p.len() as int)[0] == input[0]);
        }
    }
    let st1 = ParseState { input: Some(input), ..st0 };
    assert(parse_step(st0, args, nums, 0, usage) == Ok::<(ParseState, int), Seq<char>>((st1, 1)));
    lemma_plain_flag_step(st1, args, nums, usage);
    let st2 = after_plain_flag(st1, flag);
    assert(parse_run(st2, args, nums, 2, usage) == Ok::<ParseState, Seq<char>>(st2));
    assert(parse_run(st1, args, nums, 1, usage) == Ok::<ParseState, Seq<char>>(st2));
    assert(parse_run(st0, args, nums, 0, usage) == Ok::<ParseState, Seq<char>>(st2));
    assert(st2.input == Some(input));
    assert(st2.num_speakers is None && st2.threshold is None);
    assert(st2.chunk_override is None && st2.overlap_override is None);
    if flag == "-D"@ || flag == "--no-diarization"@ {
        assert(st2.backend is None && st2.backend_explicit);
    } else {
        assert(st2.backend is None && !st2.backend_explicit);
    }
    assert(st2.output_path is None);
    assert(finish_spec(st2, status, usage) is Ok);
    assert("--srt"@[2] != "--vtt"@[2]);
    assert("--srt"@[2] != "--raw"@[2]);
    assert("--vtt"@[2] != "--raw"@[2]);
    assert("-c"@[1] != "-D"@[1]);
    assert("-c"@[1] != "-l"@[1]);
    assert("--clean"@[2] != "--local"@[2]);
    assert("-D"@[1] != "-l"@[1]);
}

/// Flags that take the next argument as their value.
pub open spec fn is_value_flag(a: Seq<char>) -> bool {
    ||| a == "-o"@
    ||| a == "--output"@
    ||| a == "--model-dir"@
    ||| a == "--model-package"@
    ||| a == "--model-url"@
    ||| a == "-n"@
    ||| a == "--num-speakers"@
}

/// The parser's state after such a flag and its value, read right after the
/// input (a speaker count being given as `n`).
pub open spec fn after_value_flag(st: ParseState, a: Seq<char>, v: Seq<char>, n: usize) -> ParseState {
    if a == "-o"@ || a == "--output"@ {
        ParseState { output_path_source: Some(PathSource::OutputFlag), output_path: Some(v), ..st }
    } else if a == "--model-dir"@ {
        ParseState { model_dir: v, ..st }
    } else if a == "--model-package"@ {
        ParseState { model_package: v, ..st }
    } else if a == "--model-url"@ {
        ParseState { model_url: v, ..st }
    } else {
        ParseState { num_speakers: Some(n), ..st }
    }
}

proof fn lemma_value_flag_step(
    st: ParseState,
    args: Seq<Seq<char>>,
    nums: Seq<Option<u64>>,
    n: usize,
    usage: Seq<char>,
)
    requires
        args.len() == 3,
        is_value_flag(args[1]),
        args[1] == "-n"@ || args[1] == "--num-speakers"@ ==> n >= 1 && args[2] == decimal(n as nat),
        !st.output_to_stdout,
        st.output_path_source is None,
    ensures
        parse_step(st, args, nums, 1, usage) == Ok::<(ParseState, int), Seq<char>>(
            (after_value_flag(st, args[1], args[2], n), 3),
        ),
{
    let a = args[1];
    crate::number::lemma_usize_decimal_round_trip(n);
    reveal_strlit("--backend");
    reveal_strlit("--backend=");
    reveal_strlit("--chunk");
    reveal_strlit("--chunk-overlap-seconds");
    reveal_strlit("--chunk-seconds");
    reveal_strlit("--clean");
    reveal_strlit("--diarize");
    reveal_strlit("--diarize=");
    reveal_strlit("--json");
    reveal_strlit("--local");
    reveal_strlit("--model-dir");
    reveal_strlit("--model-package");
    reveal_strlit("--model-url");
    reveal_strlit("--no-diarization");
    reveal_strlit("--num-speakers");
    reveal_strlit("--output");
    reveal_strlit("--output=");
    reveal_strlit("--overlap");
    reveal_strlit("--prefer-local-for-remote");
    reveal_strlit("--raw");
    reveal_strlit("--speakers");
    reveal_strlit("--speakers=");
    reveal_strlit("--srt");
    reveal_strlit("--stdout");
    reveal_strlit("--text");
    reveal_strlit("--text=");
    reveal_strlit("--threshold");
    reveal_strlit("--vtt");
    reveal_strlit("-D");
    reveal_strlit("-c");
    reveal_strlit("-d");
    reveal_strlit("-l");
    reveal_strlit("-n");
    reveal_strlit("-o");
    reveal_strlit("-t");
    if a == "-o"@ {
        assert(a != "--output"@);
    }
    if a == "--output"@ {
    }
    if a == "--model-dir"@ {
        assert(a != "--output"@);
        assert(a != "-o"@);
        assert(a.take(9)[2] != "--output="@[2]);
        assert(!has_prefix(a, "--output="@));
    }
    if a == "--model-package"@ {
        assert(a != "--output"@);
        assert(a != "-o"@);
        assert(a.take(9)[2] != "--output="@[2]);
        assert(!has_prefix(a, "--output="@));
        assert(a != "--model-dir"@);
    }
    if a == "--model-url"@ {
        assert(a != "--output"@);
        assert(a != "-o"@);
        assert(a.take(9)[2] != "--output="@[2]);
        assert(!has_prefix(a, "--output="@));
        assert(a[8] != "--model-dir"@[8]);
        assert(a != "--model-dir"@);
        assert(a != "--model-package"@);
    }
    if a == "--num-speakers"@ {
        assert(a != "--output"@);
        assert(a != "-o"@);
        assert(a.take(9)[2] != "--output="@[2]);
        assert(!has_prefix(a, "--output="@));
        assert(a != "--model-dir"@);
        assert(a != "--model-package"@);
        assert(a != "--model-url"@);
        assert(a != "--stdout"@);
        assert(a != "--json"@);
        assert(a != "--raw"@);
        assert(a != "-c"@);
        assert(a != "--clean"@);
        assert(a != "--speakers"@);
        assert(a.take(11)[2] != "--speakers="@[2]);
        assert(!has_prefix(a, "--speakers="@));
        assert(a != "--text"@);
        assert(a.take(7)[2] != "--text="@[2]);
        assert(!has_prefix(a, "--text="@));
        assert(a != "--srt"@);
        assert(a != "--vtt"@);
        assert(a != "--local"@);
        assert(a != "-l"@);
        assert(a != "--prefer-local-for-remote"@);
        assert(a != "--backend"@);
        assert(a.take(10)[2] != "--backend="@[2]);
        assert(!has_prefix(a, "--backend="@));
        assert(a != "-d"@);
        assert(a != "--diarize"@);
        assert(a.take(10)[2] != "--diarize="@[2]);
        assert(!has_prefix(a, "--diarize="@));
        assert(a != "-D"@);
        assert(a != "--no-diarization"@);
    }
    if a == "-n"@ {
        assert(a != "--output"@);
        assert(a[1] != "-o"@[1]);
        assert(a != "-o"@);
        assert(!has_prefix(a, "--output="@));
        assert(a != "--model-dir"@);
        assert(a != "--model-package"@);
        assert(a != "--model-url"@);
        assert(a != "--stdout"@);
        assert(a != "--json"@);
        assert(a != "--raw"@);
        assert(a[1] != "-c"@[1]);
        assert(a != "-c"@);
        assert(a != "--clean"@);
        assert(a != "--speakers"@);
        assert(!has_prefix(a, "--speakers="@));
        assert(a != "--text"@);
        assert(!has_prefix(a, "--text="@));
        assert(a != "--srt"@);
        assert(a != "--vtt"@);
        assert(a != "--local"@);
        assert(a[1] != "-l"@[1]);
        assert(a != "-l"@);
        assert(a != "--prefer-local-for-remote"@);
        assert(a != "--backend"@);
        assert(!has_prefix(a, "--backend="@));
        assert(a[1] != "-d"@[1]);
        assert(a != "-d"@);
        assert(a != "--diarize"@);
        assert(!has_prefix(a, "--diarize="@));
        assert(a[1] != "-D"@[1]);
        assert(a != "-D"@);
        assert(a != "--no-diarization"@);
        assert(a != "--num-speakers"@);
    }
}

/// Each flag that takes a value, given after an input that is not itself a
/// flag, parses successfully and keeps its value: `-o`/`--output` as the
/// output path, `--model-dir`, `--model-package` and `--model-url` as the
/// model locations, and `-n`/`--num-speakers` (with the helper available) as
/// the speaker count of a coreml diarization request; the input is kept.
pub proof fn lemma_value_flags(
    input: Seq<char>,
    flag: Seq<char>,
    value: Seq<char>,
    n: usize,
    nums: Seq<Option<u64>>,
    status: FluidaudioBinaryStatus,
    model_dir: Seq<char>,
    model_package: Seq<char>,
    model_url: Seq<char>,
    usage: Seq<char>,
)
    requires
        is_value_flag(flag),
        input.len() > 0,
        input[0] != '-',
        flag == "-n"@ || flag == "--num-speakers"@ ==> n >= 1 && value == decimal(n as nat)
            && status.is_available(),
    ensures
        parse_spec(seq![input, flag, value], nums, status, model_dir, model_package, model_url, usage)
            matches Ok(a) && a.input == input && {
            &&& flag == "-o"@ || flag == "--output"@ ==> a.output_path == Some(value)
            &&& flag == "--model-dir"@ ==> a.model_dir == value
            &&& flag == "--model-package"@ ==> a.model_package == value
            &&& flag == "--model-url"@ ==> a.model_url == value
            &&& flag == "-n"@ || flag == "--num-speakers"@ ==> a.diarization == Some(
                DiarizationRequest {
                    backend: DiarizationBackend::Coreml,
                    num_speakers: Some(n),
                    threshold: None,
                },
            )
        },
{
    reveal_strlit("--backend");
    reveal_strlit("--backend=");
    reveal_strlit("--chunk");
    reveal_strlit("--chunk-overlap-seconds");
    reveal_strlit("--chunk-seconds");
    reveal_strlit("--clean");
    reveal_strlit("--diarize");
    reveal_strlit("--diarize=");
    reveal_strlit("--json");
    reveal_strlit("--local");
    reveal_strlit("--model-dir");
    reveal_strlit("--model-package");
    reveal_strlit("--model-url");
    reveal_strlit("--no-diarization");
    reveal_strlit("--num-speakers");
    reveal_strlit("--output");
    reveal_strlit("--output=");
    reveal_strlit("--overlap");
    reveal_strlit("--prefer-local-for-remote");
    reveal_strlit("--raw");
    reveal_strlit("--speakers");
    reveal_strlit("--speakers=");
    reveal_strlit("--srt");
    reveal_strlit("--stdout");
    reveal_strlit("--text");
    reveal_strlit("--text=");
    reveal_strlit("--threshold");
    reveal_strlit("--vtt");
    reveal_strlit("-D");
    reveal_strlit("-c");
    reveal_strlit("-d");
    reveal_strlit("-l");
    reveal_strlit("-n");
    reveal_strlit("-o");
    reveal_strlit("-t");
    reveal_strlit("--");
    reveal_strlit("-");
    assert("-o"@[1] != "-n"@[1]);
    assert("--model-dir"@[8] != "--model-url"@[8]);
    let args = seq![input, flag, value];
    let st0 = initial_state(model_dir, model_package, model_url);
    assert(args[0] == input);
    assert(args[1] == flag);
    assert(args[2] == value);
    assert(!has_prefix(input, "--"@) && !has_prefix(input, "-"@)) by {
        if has_prefix(input, "-"@) {
            assert(input.take(1)[0] == input[0]);
        }
        if has_prefix(input, "--"@) {
            assert(input.take(2)[0] == input[0]);
        }
    }
    lemma_flag_spellings();
    assert forall|p: Seq<char>| p.len() > 0 && p[0] == '-' implies input != p && !has_prefix(input, p) by {
        if has_prefix(input, p) {
            assert(input.take(p.len() as int)[0] == input[0]);
        }
    }
    let st1 = ParseState { input: Some(input), ..st0 };
    assert(parse_step(st0, args, nums, 0, usage) == Ok::<(ParseState, int), Seq<char>>((st1, 1)));
    lemma_value_flag_step(st1, args, nums, n, usage);
    let st2 = after_value_flag(st1, flag, value, n);
    assert(parse_run(st2, args, nums, 3, usage) == Ok::<ParseState, Seq<char>>(st2));
    assert(parse_run(st1, args, nums, 1, usage) == Ok::<ParseState, Seq<char>>(st2));
    assert(parse_run(st0, args, nums, 0, usage) == Ok::<ParseState, Seq<char>>(st2));
}

/// The one-argument spellings of the output modes and of the diarization
/// choices.
pub open spec fn is_mode_token(a: Seq<char>) -> bool {
    ||| a == "--text"@
    ||| a == "--text=plain"@
    ||| a == "--text=compact"@
    ||| a == "--text=timestamps"@
    ||| a == "--speakers"@
    ||| a == "--speakers=plain"@
    ||| a == "--speakers=timestamps"@
    ||| a == "-d"@
    ||| a == "--diarize"@
    ||| a == "--diarize=coreml"@
    ||| a == "--diarize=lseend-dihard3"@
    ||| a == "--backend=coreml"@
    ||| a == "--backend=lseend-dihard3"@
    ||| a == "--backend=none"@
}

/// Each one-argument output mode or diarization choice, given after an input
/// that is not itself a flag, parses successfully and does what it says:
/// `--text[=...]` and `--speakers[=...]` pick that output with time stamps
/// unless `plain` (or `compact`) is given, and a text mode runs no
/// diarization; `-d`, `--diarize`, `--diarize=coreml` and `--backend=coreml`
/// ask for coreml, the `lseend-dihard3` forms ask for it with the default
/// threshold 0.3, and `--backend=none` asks for none and warns about
/// nothing.
pub proof fn lemma_mode_tokens(
    input: Seq<char>,
    token: Seq<char>,
    nums: Seq<Option<u64>>,
    status: FluidaudioBinaryStatus,
    model_dir: Seq<char>,
    model_package: Seq<char>,
    model_url: Seq<char>,
    usage: Seq<char>,
)
    requires
        is_mode_token(token),
        input.len() > 0,
        input[0] != '-',
    ensures
        parse_spec(seq![input, token], nums, status, model_dir, model_package, model_url, usage)
            matches Ok(a) && a.input == input && {
            &&& token == "--text"@ || token == "--text=timestamps"@ ==> a.output_format
                == OutputFormat::Text(TextFormat::Timestamped)
            &&& token == "--text=plain"@ ==> a.output_format == OutputFormat::Text(TextFormat::Plain)
            &&& token == "--text=compact"@ ==> a.output_format == OutputFormat::Text(
                TextFormat::Compact,
            )
            &&& a.output_format is Text ==> a.diarization is None
            &&& token == "--speakers"@ || token == "--speakers=timestamps"@ ==> a.output_format
                == OutputFormat::Speakers(SpeakersFormat::Timestamped)
            &&& token == "--speakers=plain"@ ==> a.output_format == OutputFormat::Speakers(
                SpeakersFormat::Plain,
            )
            &&& token == "-d"@ || token == "--diarize"@ || token == "--diarize=coreml"@ || token
                == "--backend=coreml"@ ==> a.diarization == Some(
                DiarizationRequest {
                    backend: DiarizationBackend::Coreml,
                    num_speakers: None,
                    threshold: None,
                },
            )
            &&& token == "--diarize=lseend-dihard3"@ || token == "--backend=lseend-dihard3"@
                ==> a.diarization == Some(
                DiarizationRequest {
                    backend: DiarizationBackend::LseendDihard3,
                    num_speakers: None,
                    threshold: Some(Binary64 { bits: DEFAULT_LSEEND_THRESHOLD_BITS }),
                },
            )
            &&& token == "--backend=none"@ ==> a.diarization is None && a.diarization_notice is None
        },
{
    reveal_strlit("--backend");
    reveal_strlit("--backend=");
    reveal_strlit("--backend=coreml");
    reveal_strlit("--backend=lseend-dihard3");
    reveal_strlit("--backend=none");
    reveal_strlit("--chunk");
    reveal_strlit("--chunk-overlap-seconds");
    reveal_strlit("--chunk-seconds");
    reveal_strlit("--clean");
    reveal_strlit("--diarize");
    reveal_strlit("--diarize=");
    reveal_strlit("--diarize=coreml");
    reveal_strlit("--diarize=lseend-dihard3");
    reveal_strlit("--json");
    reveal_strlit("--local");
    reveal_strlit("--model-dir");
    reveal_strlit("--model-package");
    reveal_strlit("--model-url");
    reveal_strlit("--no-diarization");
    reveal_strlit("--num-speakers");
    reveal_strlit("--output");
    reveal_strlit("--output=");
    reveal_strlit("--overlap");
    reveal_strlit("--prefer-local-for-remote");
    reveal_strlit("--raw");
    reveal_strlit("--speakers");
    reveal_strlit("--speakers=");
    reveal_strlit("--speakers=plain");
    reveal_strlit("--speakers=timestamps");
    reveal_strlit("--srt");
    reveal_strlit("--stdout");
    reveal_strlit("--text");
    reveal_strlit("--text=");
    reveal_strlit("--text=compact");
    reveal_strlit("--text=plain");
    reveal_strlit("--text=timestamps");
    reveal_strlit("--threshold");
    reveal_strlit("--vtt");
    reveal_strlit("-D");
    reveal_strlit("-c");
    reveal_strlit("-d");
    reveal_strlit("-l");
    reveal_strlit("-n");
    reveal_strlit("-o");
    reveal_strlit("-t");
    reveal_strlit("compact");
    reveal_strlit("coreml");
    reveal_strlit("lseend-dihard3");
    reveal_strlit("none");
    reveal_strlit("plain");
    reveal_strlit("timestamps");
    reveal_strlit("--");
    reveal_strlit("-");
    assert("--text=compact"@[2] != "--backend=none"@[2]);
    assert("--speakers=plain"@[2] != "--diarize=coreml"@[2]);
    assert("--speakers=plain"@[2] != "--backend=coreml"@[2]);
    assert("--diarize=coreml"@[2] != "--backend=coreml"@[2]);
    assert("--diarize=lseend-dihard3"@[2] != "--backend=lseend-dihard3"@[2]);
    let args = seq![input, token];
    let st0 = initial_state(model_dir, model_package, model_url);
    assert(args[0] == input);
    assert(args[1] == token);
    assert(!has_prefix(input, "--"@) && !has_prefix(input, "-"@)) by {
        if has_prefix(input, "-"@) {
            assert(input.take(1)[0] == input[0]);
        }
        if has_prefix(input, "--"@) {
            assert(input.take(2)[0] == input[0]);
        }
    }
    lemma_flag_spellings();
    assert forall|p: Seq<char>| p.len() > 0 && p[0] == '-' implies input != p && !has_prefix(input, p) by {
        if has_prefix(input, p) {
            assert(input.take(p.len() as int)[0] == input[0]);
        }
    }
    let st1 = ParseState { input: Some(input), ..st0 };
    assert(parse_step(st0, args, nums, 0, usage) == Ok::<(ParseState, int), Seq<char>>((st1, 1)));
    assert(arg_at(args, 2) is None);
    {
        let a = args[1];
        if a == "--text"@ {
            assert(a != "--output"@);
            assert(a != "-o"@);
            assert(!has_prefix(a, "--output="@));
            assert(a != "--model-dir"@);
            assert(a != "--model-package"@);
            assert(a != "--model-url"@);
            assert(a != "--stdout"@);
            assert(a[2] != "--json"@[2]);
            assert(a != "--json"@);
            assert(a != "--raw"@);
            assert(a != "-c"@);
            assert(a != "--clean"@);
            assert(a != "--speakers"@);
            assert(!has_prefix(a, "--speakers="@));
        }
        if a == "--text=plain"@ {
            assert(a != "--output"@);
            assert(a != "-o"@);
            assert(a.take(9)[2] != "--output="@[2]);
            assert(!has_prefix(a, "--output="@));
            assert(a != "--model-dir"@);
            assert(a != "--model-package"@);
            assert(a != "--model-url"@);
            assert(a != "--stdout"@);
            assert(a != "--json"@);
            assert(a != "--raw"@);
            assert(a != "-c"@);
            assert(a != "--clean"@);
            assert(a != "--speakers"@);
            assert(a.take(11)[2] != "--speakers="@[2]);
            assert(!has_prefix(a, "--speakers="@));
            assert(a != "--text"@);
            assert(a.take(7) =~= "--text="@);
            assert(a.skip(7) =~= "plain"@);
        }
        if a == "--text=compact"@ {
            assert(a != "--output"@);
            assert(a != "-o"@);
            assert(a.take(9)[2] != "--output="@[2]);
            assert(!has_prefix(a, "--output="@));
            assert(a != "--model-dir"@);
            assert(a != "--model-package"@);
            assert(a != "--model-url"@);
            assert(a != "--stdout"@);
            assert(a != "--json"@);
            assert(a != "--raw"@);
            assert(a != "-c"@);
            assert(a != "--clean"@);
            assert(a != "--speakers"@);
            assert(a.take(11)[2] != "--speakers="@[2]);
            assert(!has_prefix(a, "--speakers="@));
            assert(a != "--text"@);
            assert(a.take(7) =~= "--text="@);
            assert(a.skip(7) =~= "compact"@);
        }
        if a == "--text=timestamps"@ {
            assert(a != "--output"@);
            assert(a != "-o"@);
            assert(a.take(9)[2] != "--output="@[2]);
            assert(!has_prefix(a, "--output="@));
            assert(a != "--model-dir"@);
            assert(a != "--model-package"@);
            assert(a != "--model-url"@);
            assert(a != "--stdout"@);
            assert(a != "--json"@);
            assert(a != "--raw"@);
            assert(a != "-c"@);
            assert(a != "--clean"@);
            assert(a != "--speakers"@);
            assert(a.take(11)[2] != "--speakers="@[2]);
            assert(!has_prefix(a, "--speakers="@));
            assert(a != "--text"@);
            assert(a.take(7) =~= "--text="@);
            assert(a.skip(7) =~= "timestamps"@);
        }
        if a == "--speakers"@ {
            assert(a != "--output"@);
            assert(a != "-o"@);
            assert(a.take(9)[2] != "--output="@[2]);
            assert(!has_prefix(a, "--output="@));
            assert(a != "--model-dir"@);
            assert(a != "--model-package"@);
            assert(a != "--model-url"@);
            assert(a != "--stdout"@);
            assert(a != "--json"@);
            assert(a != "--raw"@);
            assert(a != "-c"@);
            assert(a != "--clean"@);
        }
        if a == "--speakers=plain"@ {
            assert(a != "--output"@);
            assert(a != "-o"@);
            assert(a.take(9)[2] != "--output="@[2]);
            assert(!has_prefix(a, "--output="@));
            assert(a != "--model-dir"@);
            assert(a != "--model-package"@);
            assert(a != "--model-url"@);
            assert(a != "--stdout"@);
            assert(a != "--json"@);
            assert(a != "--raw"@);
            assert(a != "-c"@);
            assert(a != "--clean"@);
            assert(a != "--speakers"@);
            assert(a.take(11) =~= "--speakers="@);
            assert(a.skip(11) =~= "plain"@);
        }
        if a == "--speakers=timestamps"@ {
            assert(a != "--output"@);
            assert(a != "-o"@);
            assert(a.take(9)[2] != "--output="@[2]);
            assert(!has_prefix(a, "--output="@));
            assert(a != "--model-dir"@);
            assert(a != "--model-package"@);
            assert(a != "--model-url"@);
            assert(a != "--stdout"@);
            assert(a != "--json"@);
            assert(a != "--raw"@);
            assert(a != "-c"@);
            assert(a != "--clean"@);
            assert(a != "--speakers"@);
            assert(a.take(11) =~= "--speakers="@);
            assert(a.skip(11) =~= "timestamps"@);
        }
        if a == "-d"@ {
            assert(a != "--output"@);
            assert(a[1] != "-o"@[1]);
            assert(a != "-o"@);
            assert(!has_prefix(a, "--output="@));
            assert(a != "--model-dir"@);
            assert(a != "--model-package"@);
            assert(a != "--model-url"@);
            assert(a != "--stdout"@);
            assert(a != "--json"@);
            assert(a != "--raw"@);
            assert(a[1] != "-c"@[1]);
            assert(a != "-c"@);
            assert(a != "--clean"@);
            assert(a != "--speakers"@);
            assert(!has_prefix(a, "--speakers="@));
            assert(a != "--text"@);
            assert(!has_prefix(a, "--text="@));
            assert(a != "--srt"@);
            assert(a != "--vtt"@);
            assert(a != "--local"@);
            assert(a[1] != "-l"@[1]);
            assert(a != "-l"@);
            assert(a != "--prefer-local-for-remote"@);
            assert(a != "--backend"@);
            assert(!has_prefix(a, "--backend="@));
        }
        if a == "--diarize"@ {
            assert(a != "--output"@);
            assert(a != "-o"@);
            assert(a.take(9)[2] != "--output="@[2]);
            assert(!has_prefix(a, "--output="@));
            assert(a != "--model-dir"@);
            assert(a != "--model-package"@);
            assert(a != "--model-url"@);
            assert(a != "--stdout"@);
            assert(a != "--json"@);
            assert(a != "--raw"@);
            assert(a != "-c"@);
            assert(a != "--clean"@);
            assert(a != "--speakers"@);
            assert(!has_prefix(a, "--speakers="@));
            assert(a != "--text"@);
            assert(a.take(7)[2] != "--text="@[2]);
            assert(!has_prefix(a, "--text="@));
            assert(a != "--srt"@);
            assert(a != "--vtt"@);
            assert(a != "--local"@);
            assert(a != "-l"@);
            assert(a != "--prefer-local-for-remote"@);
            assert(a[2] != "--backend"@[2]);
            assert(a != "--backend"@);
            assert(!has_prefix(a, "--backend="@));
            assert(a != "-d"@);
        }
        if a == "--diarize=coreml"@ {
            assert(a != "--output"@);
            assert(a != "-o"@);
            assert(a.take(9)[2] != "--output="@[2]);
            assert(!has_prefix(a, "--output="@));
            assert(a != "--model-dir"@);
            assert(a != "--model-package"@);
            assert(a != "--model-url"@);
            assert(a != "--stdout"@);
            assert(a != "--json"@);
            assert(a != "--raw"@);
            assert(a != "-c"@);
            assert(a != "--clean"@);
            assert(a != "--speakers"@);
            assert(a.take(11)[2] != "--speakers="@[2]);
            assert(!has_prefix(a, "--speakers="@));
            assert(a != "--text"@);
            assert(a.take(7)[2] != "--text="@[2]);
            assert(!has_prefix(a, "--text="@));
            assert(a != "--srt"@);
            assert(a != "--vtt"@);
            assert(a != "--local"@);
            assert(a != "-l"@);
            assert(a != "--prefer-local-for-remote"@);
            assert(a != "--backend"@);
            assert(a.take(10)[2] != "--backend="@[2]);
            assert(!has_prefix(a, "--backend="@));
            assert(a != "-d"@);
            assert(a != "--diarize"@);
            assert(a.take(10) =~= "--diarize="@);
            assert(a.skip(10) =~= "coreml"@);
        }
        if a == "--diarize=lseend-dihard3"@ {
            assert(a != "--output"@);
            assert(a != "-o"@);
            assert(a.take(9)[2] != "--output="@[2]);
            assert(!has_prefix(a, "--output="@));
            assert(a != "--model-dir"@);
            assert(a != "--model-package"@);
            assert(a != "--model-url"@);
            assert(a != "--stdout"@);
            assert(a != "--json"@);
            assert(a != "--raw"@);
            assert(a != "-c"@);
            assert(a != "--clean"@);
            assert(a != "--speakers"@);
            assert(a.take(11)[2] != "--speakers="@[2]);
            assert(!has_prefix(a, "--speakers="@));
            assert(a != "--text"@);
            assert(a.take(7)[2] != "--text="@[2]);
            assert(!has_prefix(a, "--text="@));
            assert(a != "--srt"@);
            assert(a != "--vtt"@);
            assert(a != "--local"@);
            assert(a != "-l"@);
            assert(a != "--prefer-local-for-remote"@);
            assert(a != "--backend"@);
            assert(a.take(10)[2] != "--backend="@[2]);
            assert(!has_prefix(a, "--backend="@));
            assert(a != "-d"@);
            assert(a != "--diarize"@);
            assert(a.take(10) =~= "--diarize="@);
            assert(a.skip(10) =~= "lseend-dihard3"@);
        }
        if a == "--backend=coreml"@ {
            assert(a != "--output"@);
            assert(a != "-o"@);
            assert(a.take(9)[2] != "--output="@[2]);
            assert(!has_prefix(a, "--output="@));
            assert(a != "--model-dir"@);
            assert(a != "--model-package"@);
            assert(a != "--model-url"@);
            assert(a != "--stdout"@);
            assert(a != "--json"@);
            assert(a != "--raw"@);
            assert(a != "-c"@);
            assert(a != "--clean"@);
            assert(a != "--speakers"@);
            assert(a.take(11)[2] != "--speakers="@[2]);
            assert(!has_prefix(a, "--speakers="@));
            assert(a != "--text"@);
            assert(a.take(7)[2] != "--text="@[2]);
            assert(!has_prefix(a, "--text="@));
            assert(a != "--srt"@);
            assert(a != "--vtt"@);
            assert(a != "--local"@);
            assert(a != "-l"@);
            assert(a != "--prefer-local-for-remote"@);
            assert(a != "--backend"@);
            assert(a.take(10) =~= "--backend="@);
            assert(a.skip(10) =~= "coreml"@);
        }
        if a == "--backend=lseend-dihard3"@ {
            assert(a != "--output"@);
            assert(a != "-o"@);
            assert(a.take(9)[2] != "--output="@[2]);
            assert(!has_prefix(a, "--output="@));
            assert(a != "--model-dir"@);
            assert(a != "--model-package"@);
            assert(a != "--model-url"@);
            assert(a != "--stdout"@);
            assert(a != "--json"@);
            assert(a != "--raw"@);
            assert(a != "-c"@);
            assert(a != "--clean"@);
            assert(a != "--speakers"@);
            assert(a.take(11)[2] != "--speakers="@[2]);
            assert(!has_prefix(a, "--speakers="@));
            assert(a != "--text"@);
            assert(a.take(7)[2] != "--text="@[2]);
            assert(!has_prefix(a, "--text="@));
            assert(a != "--srt"@);
            assert(a != "--vtt"@);
            assert(a != "--local"@);
            assert(a != "-l"@);
            assert(a != "--prefer-local-for-remote"@);
            assert(a != "--backend"@);
            assert(a.take(10) =~= "--backend="@);
            assert(a.skip(10) =~= "lseend-dihard3"@);
        }
        if a == "--backend=none"@ {
            assert(a != "--output"@);
            assert(a != "-o"@);
            assert(a.take(9)[2] != "--output="@[2]);
            assert(!has_prefix(a, "--output="@));
            assert(a != "--model-dir"@);
            assert(a != "--model-package"@);
            assert(a != "--model-url"@);
            assert(a != "--stdout"@);
            assert(a != "--json"@);
            assert(a != "--raw"@);
            assert(a != "-c"@);
            assert(a != "--clean"@);
            assert(a != "--speakers"@);
            assert(a.take(11)[2] != "--speakers="@[2]);
            assert(!has_prefix(a, "--speakers="@));
            assert(a != "--text"@);
            assert(a.take(7)[2] != "--text="@[2]);
            assert(!has_prefix(a, "--text="@));
            assert(a != "--srt"@);
            assert(a != "--vtt"@);
            assert(a != "--local"@);
            assert(a != "-l"@);
            assert(a != "--prefer-local-for-remote"@);
            assert(a != "--backend"@);
            assert(a.take(10) =~= "--backend="@);
            assert(a.skip(10) =~= "none"@);
        }
    }
    match parse_step(st1, args, nums, 1, usage) {
        Ok((st2, j)) => {
            assert(j == 2);
            assert(parse_run(st2, args, nums, 2, usage) == Ok::<ParseState, Seq<char>>(st2));
            assert(parse_run(st1, args, nums, 1, usage) == Ok::<ParseState, Seq<char>>(st2));
            assert(parse_run(st0, args, nums, 0, usage) == Ok::<ParseState, Seq<char>>(st2));
        },
        Err(_) => {
            assert(false);
        },
    }
}

/// The spellings of the chunk length and chunk overlap flags.
pub open spec fn is_chunk_flag(a: Seq<char>) -> bool {
    a == "--chunk"@ || a == "--chunk-seconds"@ || a == "--overlap"@ || a == "--chunk-overlap-seconds"@
}

pub open spec fn is_length_flag(a: Seq<char>) -> bool {
    a == "--chunk"@ || a == "--chunk-seconds"@
}

proof fn lemma_chunk_flag_step(
    st: ParseState,
    args: Seq<Seq<char>>,
    nums: Seq<Option<u64>>,
    b: u64,
    usage: Seq<char>,
)
    requires
        args.len() == 3,
        nums.len() == 3,
        nums[2] == Some(b),
        is_chunk_flag(args[1]),
    ensures
        parse_step(st, args, nums, 1, usage) == if ieee_lt(b, ZERO_BITS) {
            Err::<(ParseState, int), Seq<char>>(
                if is_length_flag(args[1]) {
                    "--chunk must be >= 0"@
                } else {
                    "--overlap must be >= 0"@
                },
            )
        } else if is_length_flag(args[1]) {
            Ok((ParseState { chunk_override: Some(b), ..st }, 3))
        } else {
            Ok((ParseState { overlap_override: Some(b), ..st }, 3))
        },
{
    let a = args[1];
    assert(number_at(nums, 2) == Some(b));
    reveal_strlit("--backend");
    reveal_strlit("--backend=");
    reveal_strlit("--chunk");
    reveal_strlit("--chunk-overlap-seconds");
    reveal_strlit("--chunk-seconds");
    reveal_strlit("--clean");
    reveal_strlit("--diarize");
    reveal_strlit("--diarize=");
    reveal_strlit("--json");
    reveal_strlit("--local");
    reveal_strlit("--model-dir");
    reveal_strlit("--model-package");
    reveal_strlit("--model-url");
    reveal_strlit("--no-diarization");
    reveal_strlit("--num-speakers");
    reveal_strlit("--output");
    reveal_strlit("--output=");
    reveal_strlit("--overlap");
    reveal_strlit("--prefer-local-for-remote");
    reveal_strlit("--raw");
    reveal_strlit("--speakers");
    reveal_strlit("--speakers=");
    reveal_strlit("--srt");
    reveal_strlit("--stdout");
    reveal_strlit("--text");
    reveal_strlit("--text=");
    reveal_strlit("--threshold");
    reveal_strlit("--vtt");
    reveal_strlit("-D");
    reveal_strlit("-c");
    reveal_strlit("-d");
    reveal_strlit("-l");
    reveal_strlit("-n");
    reveal_strlit("-o");
    reveal_strlit("-t");

    if a == "--chunk"@ {
        assert(a != "--output"@);
        assert(a != "-o"@);
        assert(!has_prefix(a, "--output="@));
        assert(a != "--model-dir"@);
        assert(a != "--model-package"@);
        assert(a != "--model-url"@);
        assert(a != "--stdout"@);
        assert(a != "--json"@);
        assert(a != "--raw"@);
        assert(a != "-c"@);
        assert(a[3] != "--clean"@[3]);
        assert(a != "--clean"@);
        assert(a != "--speakers"@);
        assert(!has_prefix(a, "--speakers="@));
        assert(a != "--text"@);
        assert(a.take(7)[2] != "--text="@[2]);
        assert(!has_prefix(a, "--text="@));
        assert(a != "--srt"@);
        assert(a != "--vtt"@);
        assert(a[2] != "--local"@[2]);
        assert(a != "--local"@);
        assert(a != "-l"@);
        assert(a != "--prefer-local-for-remote"@);
        assert(a != "--backend"@);
        assert(!has_prefix(a, "--backend="@));
        assert(a != "-d"@);
        assert(a != "--diarize"@);
        assert(!has_prefix(a, "--diarize="@));
        assert(a != "-D"@);
        assert(a != "--no-diarization"@);
        assert(a != "--num-speakers"@);
        assert(a != "-n"@);
        assert(a != "-t"@);
        assert(a != "--threshold"@);
    }
    if a == "--chunk-seconds"@ {
        assert(a != "--output"@);
        assert(a != "-o"@);
        assert(a.take(9)[2] != "--output="@[2]);
        assert(!has_prefix(a, "--output="@));
        assert(a != "--model-dir"@);
        assert(a[2] != "--model-package"@[2]);
        assert(a != "--model-package"@);
        assert(a != "--model-url"@);
        assert(a != "--stdout"@);
        assert(a != "--json"@);
        assert(a != "--raw"@);
        assert(a != "-c"@);
        assert(a != "--clean"@);
        assert(a != "--speakers"@);
        assert(a.take(11)[2] != "--speakers="@[2]);
        assert(!has_prefix(a, "--speakers="@));
        assert(a != "--text"@);
        assert(a.take(7)[2] != "--text="@[2]);
        assert(!has_prefix(a, "--text="@));
        assert(a != "--srt"@);
        assert(a != "--vtt"@);
        assert(a != "--local"@);
        assert(a != "-l"@);
        assert(a != "--prefer-local-for-remote"@);
        assert(a != "--backend"@);
        assert(a.take(10)[2] != "--backend="@[2]);
        assert(!has_prefix(a, "--backend="@));
        assert(a != "-d"@);
        assert(a != "--diarize"@);
        assert(a.take(10)[2] != "--diarize="@[2]);
        assert(!has_prefix(a, "--diarize="@));
        assert(a != "-D"@);
        assert(a != "--no-diarization"@);
        assert(a != "--num-speakers"@);
        assert(a != "-n"@);
        assert(a != "-t"@);
        assert(a != "--threshold"@);
        assert(a != "--chunk"@);
    }
    if a == "--overlap"@ {
        assert(a != "--output"@);
        assert(a != "-o"@);
        assert(a.take(9)[3] != "--output="@[3]);
        assert(!has_prefix(a, "--output="@));
        assert(a != "--model-dir"@);
        assert(a != "--model-package"@);
        assert(a != "--model-url"@);
        assert(a != "--stdout"@);
        assert(a != "--json"@);
        assert(a != "--raw"@);
        assert(a != "-c"@);
        assert(a != "--clean"@);
        assert(a != "--speakers"@);
        assert(!has_prefix(a, "--speakers="@));
        assert(a != "--text"@);
        assert(a.take(7)[2] != "--text="@[2]);
        assert(!has_prefix(a, "--text="@));
        assert(a != "--srt"@);
        assert(a != "--vtt"@);
        assert(a != "--local"@);
        assert(a != "-l"@);
        assert(a != "--prefer-local-for-remote"@);
        assert(a[2] != "--backend"@[2]);
        assert(a != "--backend"@);
        assert(!has_prefix(a, "--backend="@));
        assert(a != "-d"@);
        assert(a[2] != "--diarize"@[2]);
        assert(a != "--diarize"@);
        assert(!has_prefix(a, "--diarize="@));
        assert(a != "-D"@);
        assert(a != "--no-diarization"@);
        assert(a != "--num-speakers"@);
        assert(a != "-n"@);
        assert(a != "-t"@);
        assert(a != "--threshold"@);
        assert(a != "--chunk"@);
        assert(a != "--chunk-seconds"@);
    }
    if a == "--chunk-overlap-seconds"@ {
        assert(a != "--output"@);
        assert(a != "-o"@);
        assert(a.take(9)[2] != "--output="@[2]);
        assert(!has_prefix(a, "--output="@));
        assert(a != "--model-dir"@);
        assert(a != "--model-package"@);
        assert(a != "--model-url"@);
        assert(a != "--stdout"@);
        assert(a != "--json"@);
        assert(a != "--raw"@);
        assert(a != "-c"@);
        assert(a != "--clean"@);
        assert(a != "--speakers"@);
        assert(a.take(11)[2] != "--speakers="@[2]);
        assert(!has_prefix(a, "--speakers="@));
        assert(a != "--text"@);
        assert(a.take(7)[2] != "--text="@[2]);
        assert(!has_prefix(a, "--text="@));
        assert(a != "--srt"@);
        assert(a != "--vtt"@);
        assert(a != "--local"@);
        assert(a != "-l"@);
        assert(a != "--prefer-local-for-remote"@);
        assert(a != "--backend"@);
        assert(a.take(10)[2] != "--backend="@[2]);
        assert(!has_prefix(a, "--backend="@));
        assert(a != "-d"@);
        assert(a != "--diarize"@);
        assert(a.take(10)[2] != "--diarize="@[2]);
        assert(!has_prefix(a, "--diarize="@));
        assert(a != "-D"@);
        assert(a != "--no-diarization"@);
        assert(a != "--num-speakers"@);
        assert(a != "-n"@);
        assert(a != "-t"@);
        assert(a != "--threshold"@);
        assert(a != "--chunk"@);
        assert(a != "--chunk-seconds"@);
        assert(a != "--overlap"@);
    }
}

/// A chunk length or overlap given after an input is taken as read: below
/// zero it is refused; a chunk length of zero turns chunking off (overlap
/// zero); a chunk length above the default two-second overlap is used with
/// that overlap; an overlap of zero or more below the default 120-second
/// chunk length is used with it.
pub proof fn lemma_chunk_flags(
    input: Seq<char>,
    flag: Seq<char>,
    value: Seq<char>,
    b: u64,
    nums: Seq<Option<u64>>,
    status: FluidaudioBinaryStatus,
    model_dir: Seq<char>,
    model_package: Seq<char>,
    model_url: Seq<char>,
    usage: Seq<char>,
)
    requires
        is_chunk_flag(flag),
        input.len() > 0,
        input[0] != '-',
        nums.len() == 3,
        nums[2] == Some(b),
        !is_nan(b),
    ensures
        ({
            let res = parse_spec(
                seq![input, flag, value],
                nums,
                status,
                model_dir,
                model_package,
                model_url,
                usage,
            );
            &&& ieee_lt(b, ZERO_BITS) ==> res == Err::<CliArgsSpec, Seq<char>>(
                if is_length_flag(flag) {
                    "--chunk must be >= 0"@
                } else {
                    "--overlap must be >= 0"@
                },
            )
            &&& is_length_flag(flag) && ieee_eq(b, ZERO_BITS) ==> (res matches Ok(a)
                && a.chunk_seconds is None && a.chunk_overlap_seconds == ZERO_BITS)
            &&& is_length_flag(flag) && ieee_lt(DEFAULT_CHUNK_OVERLAP_SECONDS_BITS, b) ==> (res
                matches Ok(a) && a.chunk_seconds == Some(b) && a.chunk_overlap_seconds
                == DEFAULT_CHUNK_OVERLAP_SECONDS_BITS)
            &&& !is_length_flag(flag) && !ieee_lt(b, ZERO_BITS) && ieee_lt(
                b,
                DEFAULT_CHUNK_SECONDS_BITS,
            ) ==> (res matches Ok(a) && a.chunk_seconds == Some(DEFAULT_CHUNK_SECONDS_BITS)
                && a.chunk_overlap_seconds == b)
        }),
{
    reveal_strlit("--backend");
    reveal_strlit("--backend=");
    reveal_strlit("--chunk");
    reveal_strlit("--chunk-overlap-seconds");
    reveal_strlit("--chunk-seconds");
    reveal_strlit("--clean");
    reveal_strlit("--diarize");
    reveal_strlit("--diarize=");
    reveal_strlit("--json");
    reveal_strlit("--local");
    reveal_strlit("--model-dir");
    reveal_strlit("--model-package");
    reveal_strlit("--model-url");
    reveal_strlit("--no-diarization");
    reveal_strlit("--num-speakers");
    reveal_strlit("--output");
    reveal_strlit("--output=");
    reveal_strlit("--overlap");
    reveal_strlit("--prefer-local-for-remote");
    reveal_strlit("--raw");
    reveal_strlit("--speakers");
    reveal_strlit("--speakers=");
    reveal_strlit("--srt");
    reveal_strlit("--stdout");
    reveal_strlit("--text");
    reveal_strlit("--text=");
    reveal_strlit("--threshold");
    reveal_strlit("--vtt");
    reveal_strlit("-D");
    reveal_strlit("-c");
    reveal_strlit("-d");
    reveal_strlit("-l");
    reveal_strlit("-n");
    reveal_strlit("-o");
    reveal_strlit("-t");
    reveal_strlit("--");
    reveal_strlit("-");

    let args = seq![input, flag, value];
    let st0 = initial_state(model_dir, model_package, model_url);
    assert(args[0] == input);
    assert(args[1] == flag);
    assert(args[2] == value);
    assert(!has_prefix(input, "--"@) && !has_prefix(input, "-"@)) by {
        if has_prefix(input, "-"@) {
            assert(input.take(1)[0] == input[0]);
        }
        if has_prefix(input, "--"@) {
            assert(input.take(2)[0] == input[0]);
        }
    }
    lemma_flag_spellings();
    assert forall|p: Seq<char>| p.len() > 0 && p[0] == '-' implies input != p && !has_prefix(input, p) by {
        if has_prefix(input, p) {
            assert(input.take(p.len() as int)[0] == input[0]);
        }
    }
    let st1 = ParseState { input: Some(input), ..st0 };
    assert(parse_step(st0, args, nums, 0, usage) == Ok::<(ParseState, int), Seq<char>>((st1, 1)));
    lemma_chunk_flag_step(st1, args, nums, b, usage);
    if !ieee_lt(b, ZERO_BITS) {
        let st2 = if is_length_flag(flag) {
            ParseState { chunk_override: Some(b), ..st1 }
        } else {
            ParseState { overlap_override: Some(b), ..st1 }
        };
        assert(parse_run(st2, args, nums, 3, usage) == Ok::<ParseState, Seq<char>>(st2));
        assert(parse_run(st1, args, nums, 1, usage) == Ok::<ParseState, Seq<char>>(st2));
        assert(parse_run(st0, args, nums, 0, usage) == Ok::<ParseState, Seq<char>>(st2));
    }
}

/// Text output modes never run diarization: a successful parse that selects
/// a text output carries no diarization request.
pub proof fn lemma_text_modes_never_diarize(
    args: Seq<Seq<char>>,
    nums: Seq<Option<u64>>,
    status: FluidaudioBinaryStatus,
    model_dir: Seq<char>,
    model_package: Seq<char>,
    model_url: Seq<char>,
    usage: Seq<char>,
)
    ensures
        parse_spec(args, nums, status, model_dir, model_package, model_url, usage) matches Ok(a)
            ==> (a.output_format is Text ==> a.diarization is None),
{
}

/// An explicitly requested diarization backend is kept whether or not the
/// helper is available (outside text modes): the run then fails clearly
/// instead of silently skipping diarization.
pub proof fn lemma_explicit_backend_kept(st: ParseState, status: FluidaudioBinaryStatus, usage: Seq<char>)
    ensures
        st.backend is Some && !(st.output_format is Text) ==> (finish_spec(st, status, usage) matches Ok(
            a,
        ) ==> a.diarization matches Some(r) && Some(r.backend) == st.backend),
{
}

/// Parses the command line (everything after the program name).
///
/// `numbers[k]` is the binary64 reading of `raw_args[k]` (`None` where it is
/// not a decimal number); only the values of `--threshold`, `--chunk` and
/// `--overlap` are looked at.
pub fn parse_args_with_diarization_status(
    raw_args: &Vec<String>,
    numbers: &Vec<Option<u64>>,
    fluidaudio_status: &FluidaudioBinaryStatus,
    defaults: &CliDefaults,
) -> (r: Result<CliArgs, String>)
    requires
        numbers.len() == raw_args.len(),
        raw_args.len() + 2 <= usize::MAX,
    ensures
        cli_result(r) == parse_spec(
            string_views(raw_args@),
            numbers@,
            *fluidaudio_status,
            defaults.model_dir@,
            defaults.model_package@,
            defaults.model_url@,
            defaults.usage@,
        ),
        r matches Ok(a) ==> consistent(a@),
{
    if raw_args.len() == 0 {
        return Err(defaults.usage.clone());
    }
    let mut args: Vec<Vec<char>> = Vec::new();
    let mut k: usize = 0;
    while k < raw_args.len()
        invariant
            k <= raw_args.len(),
            views(args@) == string_views(raw_args@).take(k as int),
        decreases raw_args.len() - k,
    {
        let ghost before = args@;
        args.push(chars_of(raw_args[k].as_str()));
        k = k + 1;
        assert(args@ == before.push(args@.last()));
        assert(views(args@) == views(before).push(args@.last()@));
        assert(string_views(raw_args@).take(k as int) == string_views(raw_args@).take(k - 1).push(
            raw_args@[k - 1]@,
        ));
    }
    assert(string_views(raw_args@).take(raw_args.len() as int) == string_views(raw_args@));
    let ghost av = views(args@);
    let ghost init = initial_state(defaults.model_dir@, defaults.model_package@, defaults.model_url@);
    let mut st = ArgState {
        model_dir: defaults.model_dir.clone(),
        model_package: defaults.model_package.clone(),
        model_url: defaults.model_url.clone(),
        input: None,
        output_path: None,
        output_to_stdout: false,
        output_path_source: None,
        output_format: OutputFormat::Speakers(SpeakersFormat::Timestamped),
        selected_output_flag: None,
        clean_output: true,
        clean_flag: None,
        force_local_for_remote: false,
        chunk_override: None,
        overlap_override: None,
        backend: None,
        backend_explicit: false,
        selection_source: None,
        num_speakers: None,
        threshold: None,
    };
    assert(st@ == init);
    let mut i: usize = 0;
    while i < args.len()
        invariant
            i <= args.len(),
            args.len() == raw_args.len(),
            numbers.len() == raw_args.len(),
            raw_args.len() + 2 <= usize::MAX,
            av == views(args@),
            av == string_views(raw_args@),
            init == initial_state(defaults.model_dir@, defaults.model_package@, defaults.model_url@),
            state_ok(st@),
            parse_run(init, av, numbers@, 0, defaults.usage@) == parse_run(
                st@,
                av,
                numbers@,
                i as int,
                defaults.usage@,
            ),
        decreases args.len() - i,
    {
        proof {
            lemma_step_advances(st@, av, numbers@, i as int, defaults.usage@);
            lemma_step_keeps_ok(st@, av, numbers@, i as int, defaults.usage@);
        }
        match parse_step_exec(st, &args, numbers, i, &defaults.usage) {
            Err(e) => {
                return Err(e);
            },
            Ok((s2, j)) => {
                st = s2;
                i = j;
            },
        }
    }
    proof {
        lemma_finish_consistent(st@, *fluidaudio_status, defaults.usage@);
    }
    finish_exec(st, fluidaudio_status, &defaults.usage)
}

} // verus!
