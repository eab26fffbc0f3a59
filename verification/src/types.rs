//! The data that flows between parsing, transcription and rendering.

use vstd::prelude::*;

use crate::binary64::Binary64;
use crate::text::{chars_eq, chars_of};

verus! {

/// Layout of speaker-aware output.
#[derive(Clone, Copy, Debug, PartialEq, Eq, Structural)]
pub enum SpeakersFormat {
    Plain,
    Timestamped,
}

impl SpeakersFormat {
    pub open spec fn from_cli_spec(value: Seq<char>) -> Option<SpeakersFormat> {
        if value == "plain"@ {
            Some(SpeakersFormat::Plain)
        } else if value == "timestamps"@ {
            Some(SpeakersFormat::Timestamped)
        } else {
            None
        }
    }

    pub fn from_cli_chars(value: &[char]) -> (r: Option<SpeakersFormat>)
        ensures
            r == Self::from_cli_spec(value@),
    {
        if chars_eq(value, "plain") {
            Some(SpeakersFormat::Plain)
        } else if chars_eq(value, "timestamps") {
            Some(SpeakersFormat::Timestamped)
        } else {
            None
        }
    }

    /// Reads the value of `--speakers=VALUE`.
    pub fn from_cli_value(value: &str) -> (r: Option<SpeakersFormat>)
        ensures
            r == Self::from_cli_spec(value@),
    {
        let v = chars_of(value);
        Self::from_cli_chars(v.as_slice())
    }
}

/// Layout of plain transcript text output.
#[derive(Clone, Copy, Debug, PartialEq, Eq, Structural)]
pub enum TextFormat {
    Plain,
    Compact,
    Timestamped,
}

impl TextFormat {
    pub open spec fn from_cli_spec(value: Seq<char>) -> Option<TextFormat> {
        if value == "plain"@ {
            Some(TextFormat::Plain)
        } else if value == "compact"@ {
            Some(TextFormat::Compact)
        } else if value == "timestamps"@ {
            Some(TextFormat::Timestamped)
        } else {
            None
        }
    }

    pub fn from_cli_chars(value: &[char]) -> (r: Option<TextFormat>)
        ensures
            r == Self::from_cli_spec(value@),
    {
        if chars_eq(value, "plain") {
            Some(TextFormat::Plain)
        } else if chars_eq(value, "compact") {
            Some(TextFormat::Compact)
        } else if chars_eq(value, "timestamps") {
            Some(TextFormat::Timestamped)
        } else {
            None
        }
    }

    /// Reads the value of `--text=VALUE`.
    pub fn from_cli_value(value: &str) -> (r: Option<TextFormat>)
        ensures
            r == Self::from_cli_spec(value@),
    {
        let v = chars_of(value);
        Self::from_cli_chars(v.as_slice())
    }
}

/// Subtitle file flavour.
#[derive(Clone, Copy, Debug, PartialEq, Eq, Structural)]
pub enum SubtitleFormat {
    Srt,
    Vtt,
}

/// What the run writes.
#[derive(Clone, Copy, Debug, PartialEq, Eq, Structural)]
pub enum OutputFormat {
    Json,
    Speakers(SpeakersFormat),
    Text(TextFormat),
    Subtitle(SubtitleFormat),
}

/// Where the media comes from.
#[derive(Clone, Debug, PartialEq, Eq)]
pub enum InputSource {
    LocalPath(String),
    RemoteUrl(String),
}

/// One timed piece of transcript text.
#[derive(Clone, Debug, PartialEq)]
pub struct TranscriptSegment {
    pub start_s: Binary64,
    pub end_s: Binary64,
    pub text: String,
    pub speaker: Option<String>,
}

/// The mathematical value of a transcript segment.
pub struct SegmentSpec {
    pub start: u64,
    pub end: u64,
    pub text: Seq<char>,
    pub speaker: Option<Seq<char>>,
}

impl TranscriptSegment {
    pub open spec fn view(&self) -> SegmentSpec {
        SegmentSpec {
            start: self.start_s.bits,
            end: self.end_s.bits,
            text: self.text@,
            speaker: match self.speaker {
                Some(s) => Some(s@),
                None => None,
            },
        }
    }
}

impl TranscriptSegment {
    /// A field-by-field copy.
    pub fn copy(&self) -> (r: TranscriptSegment)
        ensures
            r@ == self@,
    {
        TranscriptSegment {
            start_s: self.start_s,
            end_s: self.end_s,
            text: self.text.clone(),
            speaker: match &self.speaker {
                Some(x) => Some(x.clone()),
                None => None,
            },
        }
    }
}

pub open spec fn segments_view(v: Seq<TranscriptSegment>) -> Seq<SegmentSpec> {
    v.map_values(|s: TranscriptSegment| s@)
}

/// One transcribed chunk of audio.
#[derive(Clone, Debug, PartialEq)]
pub struct BenchmarkChunk {
    pub index: usize,
    pub start_s: Binary64,
    pub end_s: Binary64,
    pub audio_seconds: Binary64,
    pub transcribe_seconds: Binary64,
    pub text: String,
}

/// The mathematical value of a chunk record.
pub struct ChunkSpec {
    pub index: usize,
    pub start: u64,
    pub end: u64,
    pub audio_seconds: u64,
    pub transcribe_seconds: u64,
    pub text: Seq<char>,
}

impl BenchmarkChunk {
    pub open spec fn view(&self) -> ChunkSpec {
        ChunkSpec {
            index: self.index,
            start: self.start_s.bits,
            end: self.end_s.bits,
            audio_seconds: self.audio_seconds.bits,
            transcribe_seconds: self.transcribe_seconds.bits,
            text: self.text@,
        }
    }
}

pub open spec fn chunks_view(v: Seq<BenchmarkChunk>) -> Seq<ChunkSpec> {
    v.map_values(|c: BenchmarkChunk| c@)
}

/// Everything a run reports: the transcript, its segments and timings.
#[derive(Clone, Debug)]
pub struct BenchmarkResult {
    pub input_source: String,
    pub model_dir: String,
    pub audio_path: String,
    pub prepared_audio_path: String,
    pub used_ffmpeg_normalization: bool,
    pub used_local_model: bool,
    pub transcript_source: String,
    pub audio_seconds: Binary64,
    pub load_seconds: Binary64,
    pub transcribe_seconds: Binary64,
    pub total_inside_seconds: Binary64,
    pub seconds_per_audio_second: Binary64,
    pub realtime_speedup: Binary64,
    pub text: String,
    pub chunk_seconds: Option<Binary64>,
    pub chunk_overlap_seconds: Binary64,
    pub chunk_count: usize,
    pub chunks: Vec<BenchmarkChunk>,
    pub segments: Option<Vec<TranscriptSegment>>,
    pub speaker_diarization: Option<crate::diarization::SpeakerDiarizationMetadata>,
}

/// The mathematical value of a run's report.
pub struct ResultSpec {
    pub input_source: Seq<char>,
    pub model_dir: Seq<char>,
    pub audio_path: Seq<char>,
    pub prepared_audio_path: Seq<char>,
    pub used_ffmpeg_normalization: bool,
    pub used_local_model: bool,
    pub transcript_source: Seq<char>,
    pub audio_seconds: u64,
    pub load_seconds: u64,
    pub transcribe_seconds: u64,
    pub total_inside_seconds: u64,
    pub seconds_per_audio_second: u64,
    pub realtime_speedup: u64,
    pub text: Seq<char>,
    pub chunk_seconds: Option<u64>,
    pub chunk_overlap_seconds: u64,
    pub chunk_count: usize,
    pub chunks: Seq<ChunkSpec>,
    pub segments: Option<Seq<SegmentSpec>>,
    pub speaker_diarization: Option<crate::diarization::MetadataSpec>,
}

impl BenchmarkResult {
    pub open spec fn view(&self) -> ResultSpec {
        ResultSpec {
            input_source: self.input_source@,
            model_dir: self.model_dir@,
            audio_path: self.audio_path@,
            prepared_audio_path: self.prepared_audio_path@,
            used_ffmpeg_normalization: self.used_ffmpeg_normalization,
            used_local_model: self.used_local_model,
            transcript_source: self.transcript_source@,
            audio_seconds: self.audio_seconds.bits,
            load_seconds: self.load_seconds.bits,
            transcribe_seconds: self.transcribe_seconds.bits,
            total_inside_seconds: self.total_inside_seconds.bits,
            seconds_per_audio_second: self.seconds_per_audio_second.bits,
            realtime_speedup: self.realtime_speedup.bits,
            text: self.text@,
            chunk_seconds: match self.chunk_seconds {
                Some(c) => Some(c.bits),
                None => None,
            },
            chunk_overlap_seconds: self.chunk_overlap_seconds.bits,
            chunk_count: self.chunk_count,
            chunks: chunks_view(self.chunks@),
            segments: match self.segments {
                Some(v) => Some(segments_view(v@)),
                None => None,
            },
            speaker_diarization: match self.speaker_diarization {
                Some(m) => Some(m@),
                None => None,
            },
        }
    }
}

} // verus!
