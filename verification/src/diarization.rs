//! Speaker diarization: backend selection, the helper's command line, and
//! what is kept of its answer.

use vstd::prelude::*;

use crate::binary64::Binary64;
use crate::text::{append_str, chars_eq, chars_of};

verus! {

/// Name of the diarization helper when no override is configured.
pub const DEFAULT_FLUIDAUDIO_BINARY: &'static str = "fluidaudiocli";

/// Which diarization model the helper runs.
#[derive(Clone, Copy, Debug, PartialEq, Eq, Structural)]
pub enum DiarizationBackend {
    Coreml,
    LseendDihard3,
}

impl DiarizationBackend {
    pub open spec fn from_cli_spec(value: Seq<char>) -> Option<DiarizationBackend> {
        if value == "coreml"@ {
            Some(DiarizationBackend::Coreml)
        } else if value == "lseend-dihard3"@ {
            Some(DiarizationBackend::LseendDihard3)
        } else {
            None
        }
    }

    pub fn from_cli_chars(value: &[char]) -> (r: Option<DiarizationBackend>)
        ensures
            r == Self::from_cli_spec(value@),
    {
        if chars_eq(value, "coreml") {
            Some(DiarizationBackend::Coreml)
        } else if chars_eq(value, "lseend-dihard3") {
            Some(DiarizationBackend::LseendDihard3)
        } else {
            None
        }
    }

    /// Reads a diarization mode as written on the command line.
    pub fn from_cli_value(value: &str) -> (r: Option<DiarizationBackend>)
        ensures
            r == Self::from_cli_spec(value@),
    {
        let v = chars_of(value);
        Self::from_cli_chars(v.as_slice())
    }

    pub open spec fn name_spec(self) -> Seq<char> {
        match self {
            DiarizationBackend::Coreml =>
                "FluidInference/speaker-diarization-coreml via fluidaudiocli process --mode offline"@,
            DiarizationBackend::LseendDihard3 =>
                "FluidInference/ls-eend-coreml dihard3 via fluidaudiocli lseend"@,
        }
    }

    /// Human-readable description of the model and the helper command.
    pub fn backend_name(self) -> (r: &'static str)
        ensures
            r@ == self.name_spec(),
    {
        match self {
            DiarizationBackend::Coreml =>
                "FluidInference/speaker-diarization-coreml via fluidaudiocli process --mode offline",
            DiarizationBackend::LseendDihard3 =>
                "FluidInference/ls-eend-coreml dihard3 via fluidaudiocli lseend",
        }
    }
}

/// What the user asked the diarization helper to do.
#[derive(Clone, Copy, Debug, PartialEq, Eq, Structural)]
pub struct DiarizationRequest {
    pub backend: DiarizationBackend,
    pub num_speakers: Option<usize>,
    pub threshold: Option<Binary64>,
}

/// What a run reports about diarization.
#[derive(Clone, Debug, PartialEq, Eq)]
pub struct SpeakerDiarizationMetadata {
    pub backend: String,
    pub requested_num_speakers: Option<usize>,
    pub detected_speaker_count: Option<usize>,
    pub segment_count: usize,
}

/// The mathematical value of diarization metadata.
pub struct MetadataSpec {
    pub backend: Seq<char>,
    pub requested_num_speakers: Option<usize>,
    pub detected_speaker_count: Option<usize>,
    pub segment_count: usize,
}

impl SpeakerDiarizationMetadata {
    pub open spec fn view(&self) -> MetadataSpec {
        MetadataSpec {
            backend: self.backend@,
            requested_num_speakers: self.requested_num_speakers,
            detected_speaker_count: self.detected_speaker_count,
            segment_count: self.segment_count,
        }
    }

    /// A field-by-field copy.
    pub fn copy(&self) -> (r: SpeakerDiarizationMetadata)
        ensures
            r@ == self@,
    {
        SpeakerDiarizationMetadata {
            backend: self.backend.clone(),
            requested_num_speakers: self.requested_num_speakers,
            detected_speaker_count: self.detected_speaker_count,
            segment_count: self.segment_count,
        }
    }
}

/// Whether the diarization helper can be run, and if not, why.
#[derive(Clone, Debug, PartialEq, Eq)]
pub enum FluidaudioBinaryStatus {
    Available,
    MissingDefaultBinary,
    MissingConfiguredBinaryOnPath { binary: String },
    InvalidConfiguredBinaryPath { binary: String },
}

impl FluidaudioBinaryStatus {
    pub open spec fn is_available(&self) -> bool {
        self is Available
    }
}

pub open spec fn notice_spec(status: FluidaudioBinaryStatus) -> Option<Seq<char>> {
    match status {
        FluidaudioBinaryStatus::Available => None,
        FluidaudioBinaryStatus::MissingDefaultBinary => Some(
            "speaker diarization disabled because `fluidaudiocli` is not available on PATH; this installation may be incomplete. Reinstall the bundled helper or set FSCRIPT_DIARIZATION_BINARY to a working fluidaudiocli binary."@,
        ),
        FluidaudioBinaryStatus::MissingConfiguredBinaryOnPath { binary } => Some(
            "speaker diarization disabled because FSCRIPT_DIARIZATION_BINARY is set to `"@ + binary@
                + "`, but that command is not available on PATH; falling back to plain transcription."@,
        ),
        FluidaudioBinaryStatus::InvalidConfiguredBinaryPath { binary } => Some(
            "speaker diarization disabled because FSCRIPT_DIARIZATION_BINARY points to `"@ + binary@
                + "`, but that path is not an executable file; falling back to plain transcription."@,
        ),
    }
}

/// The warning shown when diarization is turned off because the helper is
/// missing; `None` when it is available.
pub fn missing_diarization_notice(status: &FluidaudioBinaryStatus) -> (r: Option<String>)
    ensures
        r matches Some(s) ==> notice_spec(*status) == Some(s@),
        r is None <==> notice_spec(*status) is None,
{
    match status {
        FluidaudioBinaryStatus::Available => None,
        FluidaudioBinaryStatus::MissingDefaultBinary => Some(
            String::from_str(
                "speaker diarization disabled because `fluidaudiocli` is not available on PATH; this installation may be incomplete. Reinstall the bundled helper or set FSCRIPT_DIARIZATION_BINARY to a working fluidaudiocli binary.",
            ),
        ),
        FluidaudioBinaryStatus::MissingConfiguredBinaryOnPath { binary } => {
            let mut s = String::from_str(
                "speaker diarization disabled because FSCRIPT_DIARIZATION_BINARY is set to `",
            );
            append_str(&mut s, binary.as_str());
            append_str(
                &mut s,
                "`, but that command is not available on PATH; falling back to plain transcription.",
            );
            Some(s)
        },
        FluidaudioBinaryStatus::InvalidConfiguredBinaryPath { binary } => {
            let mut s = String::from_str(
                "speaker diarization disabled because FSCRIPT_DIARIZATION_BINARY points to `",
            );
            append_str(&mut s, binary.as_str());
            append_str(
                &mut s,
                "`, but that path is not an executable file; falling back to plain transcription.",
            );
            Some(s)
        },
    }
}

} // verus!

verus! {

// ---------------------------------------------------------------------------
// Locating the helper
// ---------------------------------------------------------------------------

/// The helper binary: the configured override, or `fluidaudiocli`.
pub fn configured_fluidaudio_binary(configured: Option<String>) -> (r: String)
    ensures
        r@ == match configured {
            Some(b) => b@,
            None => "fluidaudiocli"@,
        },
{
    match configured {
        Some(b) => b,
        None => String::from_str(DEFAULT_FLUIDAUDIO_BINARY),
    }
}

/// Name for the components that `Path::components` finds in a path written
/// as text, each shown as text.  It depends on the text alone.
pub uninterp spec fn path_components(path: Seq<char>) -> Seq<Seq<char>>;

/// `Path::new(path).components()`, each component as text; only the name is
/// stated.
#[verifier::external_body]
fn components_of(path: &str) -> (r: Vec<String>)
    ensures
        crate::text::string_views(r@) == path_components(path@),
{
    std::path::Path::new(path).components().map(|c| c.as_os_str().to_string_lossy().into_owned()).collect()
}

/// How the helper is looked for.
#[derive(Clone, Copy, Debug, PartialEq, Eq, Structural)]
pub enum BinaryLookup {
    /// The binary is a path of several components: that file must be an
    /// executable.
    ExecutableFile,
    /// The binary is a bare command: some directory on `PATH` must hold an
    /// executable of that name.
    SearchPath,
}

/// Whether `binary` names a file directly or a command on `PATH`.
pub fn binary_lookup(binary: &str) -> (r: BinaryLookup)
    ensures
        (r == BinaryLookup::ExecutableFile) == (path_components(binary@).len() > 1),
{
    let parts = components_of(binary);
    assert(parts@.len() == crate::text::string_views(parts@).len());
    if parts.len() > 1 {
        BinaryLookup::ExecutableFile
    } else {
        BinaryLookup::SearchPath
    }
}

/// The helper's status, from the configured override (if any) and whether
/// the lookup found an executable: a configured path that is not an
/// executable file and a configured command missing from `PATH` are told
/// apart, so that the warning can say which.
pub fn fluidaudio_binary_status(configured: Option<String>, found: bool) -> (r: FluidaudioBinaryStatus)
    ensures
        found ==> r is Available,
        !found && configured is None ==> r is MissingDefaultBinary,
        !found && configured is Some ==> match r {
            FluidaudioBinaryStatus::InvalidConfiguredBinaryPath { binary } => path_components(
                binary@,
            ).len() > 1 && Some(binary) == configured,
            FluidaudioBinaryStatus::MissingConfiguredBinaryOnPath { binary } => path_components(
                binary@,
            ).len() <= 1 && Some(binary) == configured,
            _ => false,
        },
{
    if found {
        return FluidaudioBinaryStatus::Available;
    }
    match configured {
        None => FluidaudioBinaryStatus::MissingDefaultBinary,
        Some(binary) => match binary_lookup(binary.as_str()) {
            BinaryLookup::ExecutableFile => FluidaudioBinaryStatus::InvalidConfiguredBinaryPath {
                binary,
            },
            BinaryLookup::SearchPath => FluidaudioBinaryStatus::MissingConfiguredBinaryOnPath {
                binary,
            },
        },
    }
}

} // verus!

verus! {

// ---------------------------------------------------------------------------
// Running the helper
// ---------------------------------------------------------------------------

/// Runs diarization through the `fluidaudiocli` helper.
pub struct FluidAudioDiarizer {
    pub binary: String,
}

impl FluidAudioDiarizer {
    /// A diarizer for the configured helper (`FSCRIPT_DIARIZATION_BINARY`,
    /// read by the caller), or `fluidaudiocli`.
    pub fn new(configured: Option<String>) -> (r: FluidAudioDiarizer)
        ensures
            r.binary@ == match configured {
                Some(b) => b@,
                None => "fluidaudiocli"@,
            },
    {
        FluidAudioDiarizer { binary: configured_fluidaudio_binary(configured) }
    }
}

/// The helper's arguments for a backend, reading `audio` and writing its
/// JSON answer to `output`.
pub open spec fn base_args_spec(backend: DiarizationBackend, audio: Seq<char>, output: Seq<char>) -> Seq<
    Seq<char>,
> {
    match backend {
        DiarizationBackend::Coreml => seq![
            "process"@,
            audio,
            "--mode"@,
            "offline"@,
            "--output"@,
            output,
        ],
        DiarizationBackend::LseendDihard3 => seq![
            "lseend"@,
            audio,
            "--variant"@,
            "dihard3"@,
            "--output"@,
            output,
        ],
    }
}

/// The full argument list: the backend's arguments, then `--threshold` with
/// its decimal text when there is one, then `--num-speakers` when set.
pub open spec fn command_args_spec(
    backend: DiarizationBackend,
    audio: Seq<char>,
    output: Seq<char>,
    threshold_text: Option<Seq<char>>,
    num_speakers: Option<usize>,
) -> Seq<Seq<char>> {
    base_args_spec(backend, audio, output) + match threshold_text {
        Some(t) => seq!["--threshold"@, t],
        None => seq![],
    } + match num_speakers {
        Some(n) => seq!["--num-speakers"@, crate::text::decimal(n as nat)],
        None => seq![],
    }
}

fn push_str(v: &mut Vec<String>, s: &str)
    ensures
        crate::text::string_views(final(v)@) == crate::text::string_views(old(v)@).push(s@),
{
    let ghost before = v@;
    v.push(s.to_string());
    assert(crate::text::string_views(v@) == crate::text::string_views(before).push(v@.last()@));
}

impl FluidAudioDiarizer {
    /// The helper's command line for `request` on `audio_path`, writing to
    /// `output_path`.  `threshold_text` is the decimal form of the request's
    /// threshold, when it has one.
    pub fn command_args(
        &self,
        audio_path: &str,
        output_path: &str,
        request: &DiarizationRequest,
        threshold_text: Option<String>,
    ) -> (r: Vec<String>)
        requires
            threshold_text is Some <==> request.threshold is Some,
        ensures
            crate::text::string_views(r@) == command_args_spec(
                request.backend,
                audio_path@,
                output_path@,
                crate::paths::opt_chars(threshold_text),
                request.num_speakers,
            ),
    {
        let mut args: Vec<String> = Vec::new();
        proof {
            reveal_strlit("process");
            reveal_strlit("lseend");
        }
        match request.backend {
            DiarizationBackend::Coreml => {
                push_str(&mut args, "process");
                push_str(&mut args, audio_path);
                push_str(&mut args, "--mode");
                push_str(&mut args, "offline");
            },
            DiarizationBackend::LseendDihard3 => {
                push_str(&mut args, "lseend");
                push_str(&mut args, audio_path);
                push_str(&mut args, "--variant");
                push_str(&mut args, "dihard3");
            },
        }
        push_str(&mut args, "--output");
        push_str(&mut args, output_path);
        let ghost base = crate::text::string_views(args@);
        assert(base == base_args_spec(request.backend, audio_path@, output_path@));
        if let Some(t) = &threshold_text {
            push_str(&mut args, "--threshold");
            push_str(&mut args, t.as_str());
        }
        let ghost with_threshold = crate::text::string_views(args@);
        assert(with_threshold == base + match crate::paths::opt_chars(threshold_text) {
            Some(t) => seq!["--threshold"@, t],
            None => Seq::<Seq<char>>::empty(),
        });
        if let Some(n) = request.num_speakers {
            push_str(&mut args, "--num-speakers");
            let ghost before = args@;
            args.push(crate::text::decimal_string(n as u64));
            assert(crate::text::string_views(args@) == crate::text::string_views(before).push(
                args@.last()@,
            ));
        }
        args
    }
}

/// How running the helper went.
pub enum CommandOutcome {
    /// The binary could not be found.
    NotFound,
    /// It could not be started for another reason.
    SpawnFailed,
    /// It ran and exited; `stderr` is what it wrote there.
    Exited { success: bool, stderr: Vec<u8> },
}

/// The error that a helper run ends with, or none when it succeeded.
pub open spec fn run_error_spec(binary: Seq<char>, backend: DiarizationBackend, outcome: CommandOutcome) -> Option<
    Seq<char>,
> {
    match outcome {
        CommandOutcome::NotFound => Some(
            "speaker diarization requested, but `"@ + binary
                + "` is not available as an executable. Install "@ + backend.name_spec()
                + " or point FSCRIPT_DIARIZATION_BINARY at a working fluidaudiocli binary."@,
        ),
        CommandOutcome::SpawnFailed => Some(
            "failed to run `"@ + binary + "` for speaker diarization"@,
        ),
        CommandOutcome::Exited { success, stderr } => if success {
            None
        } else {
            Some(
                "speaker diarization failed via `"@ + binary + "`: "@ + crate::text::trim(
                    crate::text::utf8_lossy(stderr@),
                ),
            )
        },
    }
}

impl FluidAudioDiarizer {
    /// The error for a helper run that did not succeed: a missing binary, a
    /// failure to start it, or a failed exit with the helper's trimmed
    /// error output.
    pub fn run_error(&self, backend: DiarizationBackend, outcome: &CommandOutcome) -> (r: Option<String>)
        ensures
            crate::paths::opt_chars(r) == run_error_spec(self.binary@, backend, *outcome),
    {
        match outcome {
            CommandOutcome::NotFound => {
                let mut m = String::from_str("speaker diarization requested, but `");
                crate::text::append_str(&mut m, self.binary.as_str());
                crate::text::append_str(&mut m, "` is not available as an executable. Install ");
                crate::text::append_str(&mut m, backend.backend_name());
                crate::text::append_str(
                    &mut m,
                    " or point FSCRIPT_DIARIZATION_BINARY at a working fluidaudiocli binary.",
                );
                Some(m)
            },
            CommandOutcome::SpawnFailed => {
                let mut m = String::from_str("failed to run `");
                crate::text::append_str(&mut m, self.binary.as_str());
                crate::text::append_str(&mut m, "` for speaker diarization");
                Some(m)
            },
            CommandOutcome::Exited { success, stderr } => {
                if *success {
                    None
                } else {
                    let mut m = String::from_str("speaker diarization failed via `");
                    crate::text::append_str(&mut m, self.binary.as_str());
                    crate::text::append_str(&mut m, "`: ");
                    let text = crate::text::decode_utf8_lossy(stderr.as_slice());
                    let trimmed = crate::text::trim_str(text.as_str());
                    crate::text::append_chars(&mut m, trimmed.as_slice());
                    Some(m)
                }
            },
        }
    }
}

} // verus!

verus! {

// ---------------------------------------------------------------------------
// The helper's answer
// ---------------------------------------------------------------------------

/// One speaker turn as the helper writes it (`startTimeSeconds`,
/// `endTimeSeconds`, and `speakerId` or `speaker`).
#[derive(Clone, Debug, PartialEq)]
pub struct FluidAudioSegment {
    pub start_time_seconds: Binary64,
    pub end_time_seconds: Binary64,
    pub speaker_id: Option<String>,
    pub speaker: Option<String>,
}

/// The helper's JSON answer, decoded.
#[derive(Clone, Debug, PartialEq)]
pub struct FluidAudioOutput {
    pub speaker_count: Option<usize>,
    pub segments: Vec<FluidAudioSegment>,
}

/// One speaker turn that is kept.
#[derive(Clone, Debug, PartialEq)]
pub struct DiarizationSegment {
    pub start_s: Binary64,
    pub end_s: Binary64,
    pub speaker: String,
}

/// What diarization found.
#[derive(Clone, Debug, PartialEq)]
pub struct DiarizationResult {
    pub speaker_count: Option<usize>,
    pub segments: Vec<DiarizationSegment>,
}

/// The label of a turn: `speakerId`, else `speaker`, else nothing; trimmed.
pub open spec fn turn_label(seg: FluidAudioSegment) -> Seq<char> {
    crate::text::trim(
        match seg.speaker_id {
            Some(s) => s@,
            None => match seg.speaker {
                Some(s) => s@,
                None => seq![],
            },
        },
    )
}

/// A turn is kept when it has a label and does not end at or before its
/// start.
pub open spec fn turn_kept(seg: FluidAudioSegment) -> bool {
    turn_label(seg).len() > 0 && !crate::binary64::ieee_le(
        seg.end_time_seconds.bits,
        seg.start_time_seconds.bits,
    )
}

/// The kept turns, in order, as (start, end, label).
pub open spec fn kept_turns(segs: Seq<FluidAudioSegment>) -> Seq<(u64, u64, Seq<char>)>
    decreases segs.len(),
{
    if segs.len() == 0 {
        seq![]
    } else {
        let r = kept_turns(segs.drop_last());
        let s = segs.last();
        if turn_kept(s) {
            r.push((s.start_time_seconds.bits, s.end_time_seconds.bits, turn_label(s)))
        } else {
            r
        }
    }
}

pub open spec fn turns_view(segs: Seq<DiarizationSegment>) -> Seq<(u64, u64, Seq<char>)> {
    segs.map_values(|d: DiarizationSegment| (d.start_s.bits, d.end_s.bits, d.speaker@))
}

/// Keeps the turns that have a speaker label (`speakerId`, else `speaker`,
/// trimmed) and a positive length, and the reported speaker count.
pub fn parse_diarization_output(decoded: &FluidAudioOutput) -> (r: DiarizationResult)
    ensures
        r.speaker_count == decoded.speaker_count,
        turns_view(r.segments@) == kept_turns(decoded.segments@),
{
    let mut segments: Vec<DiarizationSegment> = Vec::new();
    let mut i: usize = 0;
    while i < decoded.segments.len()
        invariant
            i <= decoded.segments.len(),
            turns_view(segments@) == kept_turns(decoded.segments@.take(i as int)),
        decreases decoded.segments.len() - i,
    {
        let seg = &decoded.segments[i];
        assert(decoded.segments@.take(i + 1).drop_last() == decoded.segments@.take(i as int));
        assert(decoded.segments@.take(i + 1).last() == *seg);
        let label = match &seg.speaker_id {
            Some(s) => crate::text::trim_str(s.as_str()),
            None => match &seg.speaker {
                Some(s) => crate::text::trim_str(s.as_str()),
                None => Vec::new(),
            },
        };
        proof {
            if seg.speaker_id is None && seg.speaker is None {
                assert(crate::text::trim(Seq::<char>::empty()) == Seq::<char>::empty());
            }
        }
        if label.len() > 0 && !seg.end_time_seconds.le(seg.start_time_seconds) {
            let ghost before = segments@;
            segments.push(
                DiarizationSegment {
                    start_s: seg.start_time_seconds,
                    end_s: seg.end_time_seconds,
                    speaker: crate::text::string_of(label.as_slice()),
                },
            );
            assert(turns_view(segments@) == turns_view(before).push(
                (seg.start_time_seconds.bits, seg.end_time_seconds.bits, label@),
            ));
        }
        i = i + 1;
    }
    assert(decoded.segments@.take(decoded.segments.len() as int) == decoded.segments@);
    DiarizationResult { speaker_count: decoded.speaker_count, segments }
}

impl FluidAudioDiarizer {
    /// The result of one helper run: its error when the run did not succeed
    /// (whatever the payload), else the kept turns of the decoded payload, or
    /// the error that reading or decoding it gave.
    pub fn diarize_outcome(
        &self,
        backend: DiarizationBackend,
        outcome: &CommandOutcome,
        payload: Result<FluidAudioOutput, String>,
    ) -> (r: Result<DiarizationResult, String>)
        ensures
            run_error_spec(self.binary@, backend, *outcome) matches Some(e) ==> r matches Err(m)
                && m@ == e,
            run_error_spec(self.binary@, backend, *outcome) is None ==> match payload {
                Ok(decoded) => r matches Ok(res) && res.speaker_count == decoded.speaker_count
                    && turns_view(res.segments@) == kept_turns(decoded.segments@),
                Err(e) => r matches Err(m) && m@ == e@,
            },
    {
        match self.run_error(backend, outcome) {
            Some(message) => Err(message),
            None => match payload {
                Ok(decoded) => Ok(parse_diarization_output(&decoded)),
                Err(e) => Err(e),
            },
        }
    }
}

// ---------------------------------------------------------------------------
// Skipping, and what is reported
// ---------------------------------------------------------------------------

/// Whether a helper error only says that the audio has no speech, in which
/// case the run goes on without diarization: the message, in ASCII lower
/// case, contains `nospeechdetected` or `no speech detected`.
pub open spec fn skip_error_spec(message: Seq<char>) -> bool {
    let lower = message.map_values(|c: char| crate::text::ascii_lower(c));
    crate::text::contains_seq(lower, "nospeechdetected"@) || crate::text::contains_seq(
        lower,
        "no speech detected"@,
    )
}

pub fn should_skip_diarization_error(message: &str) -> (r: bool)
    ensures
        r == skip_error_spec(message@),
{
    let v = chars_of(message);
    let mut lower: Vec<char> = Vec::new();
    let mut i: usize = 0;
    while i < v.len()
        invariant
            i <= v.len(),
            lower@ == v@.take(i as int).map_values(|c: char| crate::text::ascii_lower(c)),
        decreases v.len() - i,
    {
        lower.push(crate::text::char_ascii_lower(v[i]));
        i = i + 1;
        assert(v@.take(i as int).map_values(|c: char| crate::text::ascii_lower(c)) == v@.take(
            i - 1,
        ).map_values(|c: char| crate::text::ascii_lower(c)).push(crate::text::ascii_lower(v@[i - 1])));
    }
    assert(v@.take(v.len() as int) == v@);
    let a = chars_of("nospeechdetected");
    let b = chars_of("no speech detected");
    crate::text::contains_chars(lower.as_slice(), a.as_slice()) || crate::text::contains_chars(
        lower.as_slice(),
        b.as_slice(),
    )
}

/// What a run reports about the diarization it did for `request`.
pub fn diarization_metadata(request: &DiarizationRequest, result: &DiarizationResult) -> (r:
    SpeakerDiarizationMetadata)
    ensures
        r@ == (MetadataSpec {
            backend: request.backend.name_spec(),
            requested_num_speakers: request.num_speakers,
            detected_speaker_count: result.speaker_count,
            segment_count: result.segments@.len() as usize,
        }),
{
    SpeakerDiarizationMetadata {
        backend: request.backend.backend_name().to_string(),
        requested_num_speakers: request.num_speakers,
        detected_speaker_count: result.speaker_count,
        segment_count: result.segments.len(),
    }
}

} // verus!
