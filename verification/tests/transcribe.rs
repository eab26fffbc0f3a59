use fast_transcript::binary64::Binary64;
use fast_transcript::transcribe::{
    benchmark_speeds_defined, build_chunk_ranges, ends_with_sentence_punctuation, merge_chunk_texts,
    merge_transcript_segments, normalized_text, normalized_words,
    transcript_segments_from_text, transcript_segments_from_transcription, ModelSegment,
};
use fast_transcript::types::TranscriptSegment;

fn tr_bits(x: f64) -> Binary64 {
    Binary64 { bits: x.to_bits() }
}

#[test]
fn build_chunk_ranges_splits_audio() {
    let ranges = build_chunk_ranges(5 * 16_000, 16_000, tr_bits(2.0), tr_bits(0.0)).unwrap();
    assert_eq!(ranges, vec![(0, 32_000), (32_000, 64_000), (64_000, 80_000)]);
}

#[test]
fn build_chunk_ranges_supports_overlap() {
    let ranges = build_chunk_ranges(5 * 16_000, 16_000, tr_bits(2.0), tr_bits(1.0)).unwrap();
    assert_eq!(
        ranges,
        vec![(0, 32_000), (16_000, 48_000), (32_000, 64_000), (48_000, 80_000)]
    );
}

#[test]
fn build_chunk_ranges_rejects_degenerate_plans() {
    assert_eq!(
        build_chunk_ranges(80_000, 16_000, tr_bits(0.00001), tr_bits(0.0)),
        Err("chunk size rounded to zero samples".to_string())
    );
    assert_eq!(
        build_chunk_ranges(80_000, 16_000, tr_bits(2.0), tr_bits(2.0)),
        Err("overlap size rounded to chunk size or larger".to_string())
    );
    assert_eq!(build_chunk_ranges(0, 16_000, tr_bits(2.0), tr_bits(1.0)), Ok(vec![]));
    assert_eq!(
        build_chunk_ranges(10, 16_000, tr_bits(f64::INFINITY), tr_bits(0.0)),
        Ok(vec![(0, 10)])
    );
    assert_eq!(
        build_chunk_ranges(10, 16_000, tr_bits(f64::NAN), tr_bits(0.0)),
        Err("chunk size rounded to zero samples".to_string())
    );
    assert_eq!(
        build_chunk_ranges(100, 3, tr_bits(2.5), tr_bits(0.5)),
        Ok(vec![(0, 8), (6, 14), (12, 20), (18, 26), (24, 32), (30, 38), (36, 44), (42, 50), (48, 56), (54, 62), (60, 68), (66, 74), (72, 80), (78, 86), (84, 92), (90, 98), (96, 100)])
    );
}

#[test]
fn seconds_to_samples_matches_binary64_rounding() {
    for &(seconds, rate) in &[
        (2.0f64, 16_000usize),
        (0.1, 16_000),
        (1.0 / 3.0, 16_000),
        (1e-7, 16_000),
        (3.1e-5, 16_000),
        (123456.789, 44_100),
        (0.5, 1),
        (1.5, 1),
        (2.5, 1),
        (1e300, 16_000),
        (-1.0, 16_000),
        (7.25, 0),
        (0.3, 9_007_199_254_740_993),
    ] {
        let expected = (seconds * rate as f64).round() as usize;
        assert_eq!(
            tr_bits(seconds).samples_at_rate(rate),
            expected,
            "seconds {seconds} at rate {rate}"
        );
    }
}

#[test]
fn merge_chunk_texts_dedups_case_insensitive_overlap() {
    let merged = merge_chunk_texts("Não precisa ser um chefe de", "De cozinha pra entender");
    assert_eq!(merged, "Não precisa ser um chefe de cozinha pra entender");
}

#[test]
fn merge_chunk_texts_keeps_text_when_no_overlap() {
    let merged = merge_chunk_texts("Primeira frase.", "Segunda frase.");
    assert_eq!(merged, "Primeira frase. Segunda frase.");
}

#[test]
fn merge_chunk_texts_edge_cases() {
    assert_eq!(merge_chunk_texts("  ", " right "), "right");
    assert_eq!(merge_chunk_texts(" left ", ""), "left");
    assert_eq!(merge_chunk_texts("fim.", "Fim do texto"), "fim. Fim do texto");
    assert_eq!(merge_chunk_texts("a b c", "B, c!"), "a b c");
    assert_eq!(merge_chunk_texts("...", "???"), "... ???");
    assert!(ends_with_sentence_punctuation("Done?  \n"));
    assert!(!ends_with_sentence_punctuation("Done"));
    assert_eq!(normalized_text("  Olá, MUNDO!  ... x "), "olá mundo x");
    assert_eq!(
        normalized_words("Hi, you"),
        vec![("Hi,".to_string(), "hi".to_string()), ("you".to_string(), "you".to_string())]
    );
}

#[test]
fn merge_transcript_segments_dedups_overlapping_boundary_segments() {
    let mut segments = transcript_segments_from_text("chefe de", tr_bits(0.0), tr_bits(1.0));
    merge_transcript_segments(
        &mut segments,
        vec![TranscriptSegment {
            start_s: tr_bits(0.8),
            end_s: tr_bits(1.8),
            text: "de cozinha".to_string(),
            speaker: None,
        }],
    );
    assert_eq!(
        segments,
        vec![TranscriptSegment {
            start_s: tr_bits(0.0),
            end_s: tr_bits(1.8),
            text: "chefe de cozinha".to_string(),
            speaker: None,
        }]
    );
}

#[test]
fn merge_transcript_segments_stretches_repeats_and_appends_the_rest() {
    let mut segments = transcript_segments_from_text("Olá mundo", tr_bits(0.0), tr_bits(1.0));
    merge_transcript_segments(
        &mut segments,
        vec![
            TranscriptSegment {
                start_s: tr_bits(0.5),
                end_s: tr_bits(1.5),
                text: "olá, MUNDO".to_string(),
                speaker: None,
            },
            TranscriptSegment {
                start_s: tr_bits(1.5),
                end_s: tr_bits(2.0),
                text: "depois".to_string(),
                speaker: None,
            },
        ],
    );
    assert_eq!(segments.len(), 2);
    assert_eq!(segments[0].text, "Olá mundo");
    assert_eq!(segments[0].end_s, tr_bits(1.5));
    assert_eq!(segments[1].text, "depois");
    assert!(transcript_segments_from_text("   ", tr_bits(0.0), tr_bits(1.0)).is_empty());
}

#[test]
fn transcription_segments_fall_back_to_whole_text() {
    let kept = transcript_segments_from_transcription(
        &Some(vec![
            ModelSegment { start_s: tr_bits(0.0), end_s: tr_bits(1.0), text: " hi ".to_string() },
            ModelSegment { start_s: tr_bits(2.0), end_s: tr_bits(2.0), text: "zero".to_string() },
            ModelSegment { start_s: tr_bits(2.0), end_s: tr_bits(3.0), text: "  ".to_string() },
        ]),
        "hi zero",
        tr_bits(0.0),
        tr_bits(3.0),
    );
    assert_eq!(
        kept,
        vec![TranscriptSegment {
            start_s: tr_bits(0.0),
            end_s: tr_bits(1.0),
            text: "hi".to_string(),
            speaker: None
        }]
    );
    let fallback = transcript_segments_from_transcription(&Some(vec![]), " all ", tr_bits(0.0), tr_bits(3.0));
    assert_eq!(fallback[0].text, "all");
    assert_eq!(fallback[0].end_s, tr_bits(3.0));
    assert!(transcript_segments_from_transcription(&None, "", tr_bits(0.0), tr_bits(3.0)).is_empty());
}

#[test]
fn derived_benchmark_speeds_stay_finite_for_zero_length_audio() {
    assert!(!benchmark_speeds_defined(tr_bits(0.0), tr_bits(0.25)));
    assert!(!benchmark_speeds_defined(tr_bits(f64::INFINITY), tr_bits(0.25)));
    assert!(!benchmark_speeds_defined(tr_bits(f64::NAN), tr_bits(0.25)));
    assert!(!benchmark_speeds_defined(tr_bits(10.0), tr_bits(-0.0)));
    assert!(benchmark_speeds_defined(tr_bits(10.0), tr_bits(0.25)));
}
