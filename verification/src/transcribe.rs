//! Stitching chunked transcription back together: splitting audio into
//! overlapping chunks, and merging the texts and segments of neighbouring
//! chunks without repeating the words they share.

use vstd::prelude::*;

use crate::binary64::{ieee_le, ieee_lt, ieee_max, ieee_min, is_finite, samples_spec, Binary64};
use crate::text::{
    append_str, char_is_alphanumeric, char_is_ws, chars_of, join,
    lemma_strip_bounds, slice_chars, split_ws, string_of, strip_where,
    to_lowercase, trim, trim_chars, trim_end, unicode_alphanumeric,
    trim_str, unicode_lowercase, views, words,
};
use crate::types::{segments_view, SegmentSpec, TranscriptSegment};

verus! {

// ---------------------------------------------------------------------------
// Normalised words
// ---------------------------------------------------------------------------

/// Characters stripped from both ends of a word before comparing it.
pub open spec fn not_alphanumeric() -> spec_fn(char) -> bool {
    |c: char| !unicode_alphanumeric(c)
}

/// A word compared by its alphanumeric core, lower-cased.
pub open spec fn normalize_word_spec(w: Seq<char>) -> Seq<char> {
    unicode_lowercase(strip_where(w, not_alphanumeric()))
}

/// Each word paired with its normalised form, keeping the words whose
/// normalised form is not empty.
pub open spec fn word_pairs(ws: Seq<Seq<char>>) -> Seq<(Seq<char>, Seq<char>)>
    decreases ws.len(),
{
    if ws.len() == 0 {
        seq![]
    } else {
        let r = word_pairs(ws.drop_last());
        let n = normalize_word_spec(ws.last());
        if n.len() > 0 {
            r.push((ws.last(), n))
        } else {
            r
        }
    }
}

/// The white-space separated words of `text` that have an alphanumeric core,
/// each with its normalised form.
pub open spec fn normalized_words_spec(text: Seq<char>) -> Seq<(Seq<char>, Seq<char>)> {
    word_pairs(words(text))
}

pub open spec fn pairs_view(v: Seq<(String, String)>) -> Seq<(Seq<char>, Seq<char>)> {
    v.map_values(|p: (String, String)| (p.0@, p.1@))
}

/// The normalised forms alone.
pub open spec fn norms(ps: Seq<(Seq<char>, Seq<char>)>) -> Seq<Seq<char>> {
    ps.map_values(|p: (Seq<char>, Seq<char>)| p.1)
}

/// The words as written.
pub open spec fn written_forms(ps: Seq<(Seq<char>, Seq<char>)>) -> Seq<Seq<char>> {
    ps.map_values(|p: (Seq<char>, Seq<char>)| p.0)
}

fn normalize_word(w: &[char]) -> (r: String)
    ensures
        r@ == normalize_word_spec(w@),
{
    let mut a: usize = 0;
    while a < w.len() && !char_is_alphanumeric(w[a])
        invariant
            a <= w.len(),
            forall|k: int| 0 <= k < a ==> (not_alphanumeric())(#[trigger] w@[k]),
        decreases w.len() - a,
    {
        a = a + 1;
    }
    let mut b: usize = w.len();
    while b > a && !char_is_alphanumeric(w[b - 1])
        invariant
            a <= b <= w.len(),
            forall|k: int| b <= k < w.len() ==> (not_alphanumeric())(#[trigger] w@[k]),
        decreases b,
    {
        b = b - 1;
    }
    proof {
        lemma_strip_bounds(w@, not_alphanumeric(), a as int, b as int);
    }
    let core = slice_chars(w, a, b);
    let s = string_of(core.as_slice());
    to_lowercase(s.as_str())
}

/// The words of `text` that have an alphanumeric core, each paired with that
/// core in lower case.
pub fn normalized_words(text: &str) -> (r: Vec<(String, String)>)
    ensures
        pairs_view(r@) == normalized_words_spec(text@),
{
    let v = chars_of(text);
    let ws = split_ws(v.as_slice());
    let mut r: Vec<(String, String)> = Vec::new();
    let mut i: usize = 0;
    while i < ws.len()
        invariant
            i <= ws.len(),
            views(ws@) == words(text@),
            pairs_view(r@) == word_pairs(views(ws@).take(i as int)),
        decreases ws.len() - i,
    {
        let ghost pre = views(ws@).take(i as int);
        assert(views(ws@).take(i + 1).drop_last() == pre);
        assert(views(ws@).take(i + 1).last() == ws@[i as int]@);
        let n = normalize_word(ws[i].as_slice());
        if !n.as_str().is_empty() {
            let written = string_of(ws[i].as_slice());
            r.push((written, n));
            assert(pairs_view(r@) == pairs_view(r@.drop_last()).push((r@.last().0@, r@.last().1@)));
        }
        i = i + 1;
    }
    assert(views(ws@).take(ws.len() as int) == views(ws@));
    r
}

/// The normalised words of `text` joined with single spaces.
pub open spec fn normalized_text_spec(text: Seq<char>) -> Seq<char> {
    join(norms(normalized_words_spec(text)), seq![' '])
}

/// `text` reduced to its normalised words, separated by single spaces.
pub fn normalized_text(text: &str) -> (r: String)
    ensures
        r@ == normalized_text_spec(text@),
{
    let pairs = normalized_words(text);
    let mut r = String::new();
    let mut i: usize = 0;
    proof {
        reveal_strlit(" ");
    }
    while i < pairs.len()
        invariant
            i <= pairs.len(),
            " "@ == seq![' '],
            r@ == join(norms(pairs_view(pairs@)).take(i as int), seq![' ']),
        decreases pairs.len() - i,
    {
        let ghost ns = norms(pairs_view(pairs@));
        assert(ns.take(i + 1).drop_last() == ns.take(i as int));
        assert(ns.take(i + 1).last() == pairs@[i as int].1@);
        if i > 0 {
            append_str(&mut r, " ");
        }
        append_str(&mut r, pairs[i].1.as_str());
        i = i + 1;
    }
    assert(norms(pairs_view(pairs@)).take(pairs.len() as int) == norms(pairs_view(pairs@)));
    r
}

// ---------------------------------------------------------------------------
// Merging the texts of neighbouring chunks
// ---------------------------------------------------------------------------

pub open spec fn is_sentence_punctuation(c: char) -> bool {
    c == '.' || c == '!' || c == '?' || c == ':' || c == ';'
}

/// Whether `text`, ignoring trailing white space, ends with `.`, `!`, `?`,
/// `:` or `;`.
pub open spec fn ends_with_sentence_punctuation_spec(text: Seq<char>) -> bool {
    trim_end(text).len() > 0 && is_sentence_punctuation(trim_end(text).last())
}

fn ends_with_punctuation_chars(v: &[char]) -> (r: bool)
    ensures
        r == ends_with_sentence_punctuation_spec(v@),
{
    let mut b: usize = v.len();
    assert(v@.take(v.len() as int) == v@);
    while b > 0 && char_is_ws(v[b - 1])
        invariant
            b <= v.len(),
            trim_end(v@) == trim_end(v@.take(b as int)),
        decreases b,
    {
        assert(v@.take(b as int).drop_last() == v@.take(b - 1));
        b = b - 1;
    }
    if b == 0 {
        return false;
    }
    assert(trim_end(v@.take(b as int)) == v@.take(b as int));
    let c = v[b - 1];
    c == '.' || c == '!' || c == '?' || c == ':' || c == ';'
}

/// Whether `text` ends a sentence (ignoring trailing white space).
pub fn ends_with_sentence_punctuation(text: &str) -> (r: bool)
    ensures
        r == ends_with_sentence_punctuation_spec(text@),
{
    let v = chars_of(text);
    ends_with_punctuation_chars(v.as_slice())
}

/// The last `k` normalised words of `lw` equal the first `k` of `rw`.
pub open spec fn shares_words(
    lw: Seq<(Seq<char>, Seq<char>)>,
    rw: Seq<(Seq<char>, Seq<char>)>,
    k: int,
) -> bool {
    forall|i: int| 0 <= i < k ==> #[trigger] lw[lw.len() - k + i].1 == rw[i].1
}

/// An overlap of `k` words is taken when the words match, and a single shared
/// word only when the left text does not end a sentence.
pub open spec fn overlap_accepted(
    lw: Seq<(Seq<char>, Seq<char>)>,
    rw: Seq<(Seq<char>, Seq<char>)>,
    k: int,
    ends_sentence: bool,
) -> bool {
    shares_words(lw, rw, k) && (k >= 2 || !ends_sentence)
}

/// The longest accepted overlap of at most `k` words, or 0.
pub open spec fn best_overlap(
    lw: Seq<(Seq<char>, Seq<char>)>,
    rw: Seq<(Seq<char>, Seq<char>)>,
    k: nat,
    ends_sentence: bool,
) -> nat
    decreases k,
{
    if k == 0 {
        0
    } else if overlap_accepted(lw, rw, k as int, ends_sentence) {
        k
    } else {
        best_overlap(lw, rw, (k - 1) as nat, ends_sentence)
    }
}

pub open spec fn min3(a: nat, b: nat, c: nat) -> nat {
    let m = if a < b {
        a
    } else {
        b
    };
    if m < c {
        m
    } else {
        c
    }
}

/// At most this many words are compared across a chunk boundary.
pub const MAX_OVERLAP_WORDS: usize = 64;

/// The text of two neighbouring chunks joined, with the words at the start of
/// `right` that repeat the end of `left` dropped.
pub open spec fn merge_chunk_texts_spec(left: Seq<char>, right: Seq<char>) -> Seq<char> {
    let l = trim(left);
    let r = trim(right);
    if l.len() == 0 {
        r
    } else if r.len() == 0 {
        l
    } else {
        let lw = normalized_words_spec(l);
        let rw = normalized_words_spec(r);
        if lw.len() == 0 || rw.len() == 0 {
            l + seq![' '] + r
        } else {
            let best = best_overlap(
                lw,
                rw,
                min3(lw.len(), rw.len(), MAX_OVERLAP_WORDS as nat),
                ends_with_sentence_punctuation_spec(l),
            );
            if best == 0 {
                l + seq![' '] + r
            } else {
                let remaining = join(written_forms(rw.skip(best as int)), seq![' ']);
                if remaining.len() == 0 {
                    l
                } else {
                    l + seq![' '] + remaining
                }
            }
        }
    }
}

fn shares_words_exec(lw: &Vec<(String, String)>, rw: &Vec<(String, String)>, k: usize) -> (r: bool)
    requires
        k <= lw.len(),
        k <= rw.len(),
    ensures
        r == shares_words(pairs_view(lw@), pairs_view(rw@), k as int),
{
    let ghost l = pairs_view(lw@);
    let ghost rr = pairs_view(rw@);
    let base = lw.len() - k;
    let mut i: usize = 0;
    while i < k
        invariant
            i <= k,
            k <= lw.len(),
            k <= rw.len(),
            base == lw.len() - k,
            l == pairs_view(lw@),
            rr == pairs_view(rw@),
            forall|j: int| 0 <= j < i ==> #[trigger] l[l.len() - k + j].1 == rr[j].1,
        decreases k - i,
    {
        let same = lw[base + i].1 == rw[i].1;
        if !same {
            assert(l[l.len() - k + i].1 != rr[i as int].1);
            return false;
        }
        i = i + 1;
    }
    true
}

fn string_from_chars_vec(v: &Vec<char>) -> (r: String)
    ensures
        r@ == v@,
{
    string_of(v.as_slice())
}

/// Joins the texts of two neighbouring chunks.  Both are trimmed; when the
/// start of `right` repeats the end of `left` (compared word by word, by the
/// lower-cased alphanumeric core of each word, over at most 64 words), the
/// repeated words are dropped.  A single repeated word counts only when
/// `left` does not end with sentence punctuation.
pub fn merge_chunk_texts(left: &str, right: &str) -> (r: String)
    ensures
        r@ == merge_chunk_texts_spec(left@, right@),
{
    let lv = chars_of(left);
    let rv = chars_of(right);
    let lt = trim_chars(lv.as_slice());
    let rt = trim_chars(rv.as_slice());
    let l = string_from_chars_vec(&lt);
    let r = string_from_chars_vec(&rt);
    if lt.len() == 0 {
        return r;
    }
    if rt.len() == 0 {
        return l;
    }
    let lw = normalized_words(l.as_str());
    let rw = normalized_words(r.as_str());
    proof {
        reveal_strlit(" ");
    }
    if lw.len() == 0 || rw.len() == 0 {
        let mut out = l;
        append_str(&mut out, " ");
        append_str(&mut out, r.as_str());
        return out;
    }
    let ends_sentence = ends_with_punctuation_chars(lt.as_slice());
    let mut max_overlap = if lw.len() < rw.len() {
        lw.len()
    } else {
        rw.len()
    };
    if max_overlap > MAX_OVERLAP_WORDS {
        max_overlap = MAX_OVERLAP_WORDS;
    }
    let ghost lws = pairs_view(lw@);
    let ghost rws = pairs_view(rw@);
    let ghost kmax = min3(lws.len(), rws.len(), MAX_OVERLAP_WORDS as nat);
    assert(max_overlap == kmax);
    let mut best: usize = 0;
    let mut k: usize = max_overlap;
    let mut found = false;
    while k > 0 && !found
        invariant
            k <= max_overlap,
            max_overlap <= lw.len(),
            max_overlap <= rw.len(),
            lws == pairs_view(lw@),
            rws == pairs_view(rw@),
            ends_sentence == ends_with_sentence_punctuation_spec(lt@),
            kmax == max_overlap,
            best <= max_overlap,
            found ==> best as nat == best_overlap(lws, rws, kmax, ends_sentence),
            !found ==> best == 0 && best_overlap(lws, rws, kmax, ends_sentence)
                == best_overlap(lws, rws, k as nat, ends_sentence),
        decreases k + if found { 0int } else { 1int },
    {
        let matches = shares_words_exec(&lw, &rw, k);
        if matches && (k >= 2 || !ends_sentence) {
            best = k;
            found = true;
        } else {
            k = k - 1;
        }
    }
    assert(best as nat == best_overlap(lws, rws, kmax, ends_sentence));
    if best == 0 {
        let mut out = l;
        append_str(&mut out, " ");
        append_str(&mut out, r.as_str());
        return out;
    }
    let mut remaining = String::new();
    let mut i: usize = best;
    while i < rw.len()
        invariant
            best <= i <= rw.len(),
            rws == pairs_view(rw@),
            " "@ == seq![' '],
            remaining@ == join(written_forms(rws.skip(best as int)).take(i - best), seq![' ']),
        decreases rw.len() - i,
    {
        let ghost os = written_forms(rws.skip(best as int));
        assert(os.take(i - best + 1).drop_last() == os.take(i - best));
        assert(os.take(i - best + 1).last() == rw@[i as int].0@);
        if i > best {
            append_str(&mut remaining, " ");
        }
        append_str(&mut remaining, rw[i].0.as_str());
        i = i + 1;
    }
    assert(written_forms(rws.skip(best as int)).take(rw.len() - best) == written_forms(
        rws.skip(best as int),
    ));
    if remaining.as_str().is_empty() {
        l
    } else {
        let mut out = l;
        append_str(&mut out, " ");
        append_str(&mut out, remaining.as_str());
        out
    }
}

} // verus!

verus! {

// ---------------------------------------------------------------------------
// Segments
// ---------------------------------------------------------------------------

/// The segment list for a transcription without segment timing: the whole
/// trimmed text over the given span, or nothing when the text is blank.
pub open spec fn segments_from_text_spec(text: Seq<char>, start: u64, end: u64) -> Seq<SegmentSpec> {
    if trim(text).len() == 0 {
        seq![]
    } else {
        seq![SegmentSpec { start, end, text: trim(text), speaker: None }]
    }
}

/// One segment spanning `start_s..end_s` with the trimmed text, or none when
/// the text is blank.
pub fn transcript_segments_from_text(text: &str, start_s: Binary64, end_s: Binary64) -> (r: Vec<
    TranscriptSegment,
>)
    ensures
        segments_view(r@) == segments_from_text_spec(text@, start_s.bits, end_s.bits),
{
    let t = trim_str(text);
    let mut r: Vec<TranscriptSegment> = Vec::new();
    if t.len() > 0 {
        r.push(
            TranscriptSegment {
                start_s,
                end_s,
                text: string_of(t.as_slice()),
                speaker: None,
            },
        );
        assert(segments_view(r@) == seq![r@[0]@]);
    } else {
        assert(segments_view(r@) == Seq::<SegmentSpec>::empty());
    }
    r
}

/// Two segments share time: `(a.end.min(b.end) - a.start.max(b.start)).max(0.0)
/// > 0.0`, which for IEEE 754 values holds exactly when the later start lies
/// before the earlier end.
pub open spec fn segments_overlap(a: SegmentSpec, b: SegmentSpec) -> bool {
    ieee_lt(ieee_max(a.start, b.start), ieee_min(a.end, b.end))
}

/// The two texts trimmed and joined with a space, then trimmed again.
pub open spec fn concatenated_text(a: Seq<char>, b: Seq<char>) -> Seq<char> {
    trim(trim(a) + seq![' '] + trim(b))
}

/// Adding one incoming segment to the merged list.  When it shares time with
/// the last merged segment and says the same words, the last one is
/// stretched over it; when their texts overlap word-wise, the last one takes
/// the merged text and is stretched; otherwise it is appended.
pub open spec fn merge_segment_step(existing: Seq<SegmentSpec>, seg: SegmentSpec) -> Seq<
    SegmentSpec,
> {
    if existing.len() > 0 && segments_overlap(existing.last(), seg) {
        let last = existing.last();
        let i = existing.len() - 1;
        if normalized_text_spec(last.text) == normalized_text_spec(seg.text) {
            existing.update(
                i,
                SegmentSpec {
                    start: last.start,
                    end: ieee_max(last.end, seg.end),
                    text: last.text,
                    speaker: last.speaker,
                },
            )
        } else if merge_chunk_texts_spec(last.text, seg.text) != concatenated_text(
            last.text,
            seg.text,
        ) {
            existing.update(
                i,
                SegmentSpec {
                    start: last.start,
                    end: ieee_max(last.end, seg.end),
                    text: merge_chunk_texts_spec(last.text, seg.text),
                    speaker: last.speaker,
                },
            )
        } else {
            existing.push(seg)
        }
    } else {
        existing.push(seg)
    }
}

/// All incoming segments added in order.
pub open spec fn merge_segments_spec(existing: Seq<SegmentSpec>, incoming: Seq<SegmentSpec>) -> Seq<
    SegmentSpec,
>
    decreases incoming.len(),
{
    if incoming.len() == 0 {
        existing
    } else {
        merge_segment_step(
            merge_segments_spec(existing, incoming.drop_last()),
            incoming.last(),
        )
    }
}

fn concatenated(a: &String, b: &String) -> (r: String)
    ensures
        r@ == concatenated_text(a@, b@),
{
    let mut v = trim_str(a.as_str());
    v.push(' ');
    let bt = trim_str(b.as_str());
    let mut i: usize = 0;
    let ghost start = v@;
    while i < bt.len()
        invariant
            i <= bt.len(),
            v@ == start + bt@.take(i as int),
        decreases bt.len() - i,
    {
        v.push(bt[i]);
        i = i + 1;
        assert(bt@.take(i as int) == bt@.take(i - 1).push(bt@[i - 1]));
    }
    assert(bt@.take(bt.len() as int) == bt@);
    assert(v@ == trim(a@) + seq![' '] + trim(b@));
    let t = trim_chars(v.as_slice());
    string_of(t.as_slice())
}

/// Appends the segments of the next chunk to the merged list, folding each
/// one into the last merged segment when they share time and words (see
/// `merge_segment_step`).
pub fn merge_transcript_segments(existing: &mut Vec<TranscriptSegment>, incoming: Vec<TranscriptSegment>)
    ensures
        segments_view(final(existing)@) == merge_segments_spec(
            segments_view(old(existing)@),
            segments_view(incoming@),
        ),
{
    let ghost start = segments_view(existing@);
    let mut j: usize = 0;
    while j < incoming.len()
        invariant
            j <= incoming.len(),
            segments_view(existing@) == merge_segments_spec(
                start,
                segments_view(incoming@).take(j as int),
            ),
        decreases incoming.len() - j,
    {
        let ghost before = segments_view(existing@);
        assert(segments_view(incoming@).take(j + 1).drop_last() == segments_view(incoming@).take(
            j as int,
        ));
        assert(segments_view(incoming@).take(j + 1).last() == incoming@[j as int]@);
        let segment = &incoming[j];
        let n = existing.len();
        let mut merged_into_last = false;
        if n > 0 {
            let last = &existing[n - 1];
            let overlap = last.start_s.max(segment.start_s).lt(last.end_s.min(segment.end_s));
            if overlap {
                let same_words = normalized_text(last.text.as_str()) == normalized_text(
                    segment.text.as_str(),
                );
                if same_words {
                    let updated = TranscriptSegment {
                        start_s: last.start_s,
                        end_s: last.end_s.max(segment.end_s),
                        text: last.text.clone(),
                        speaker: match &last.speaker {
                            Some(x) => Some(x.clone()),
                            None => None,
                        },
                    };
                    existing.set(n - 1, updated);
                    merged_into_last = true;
                } else {
                    let merged_text = merge_chunk_texts(last.text.as_str(), segment.text.as_str());
                    let joined = concatenated(&last.text, &segment.text);
                    if merged_text != joined {
                        let updated = TranscriptSegment {
                            start_s: last.start_s,
                            end_s: last.end_s.max(segment.end_s),
                            text: merged_text,
                            speaker: match &last.speaker {
                                Some(x) => Some(x.clone()),
                                None => None,
                            },
                        };
                        existing.set(n - 1, updated);
                        merged_into_last = true;
                    }
                }
            }
        }
        if !merged_into_last {
            existing.push(segment.copy());
        }
        proof {
            assert(segments_view(existing@) == merge_segment_step(before, incoming@[j as int]@));
        }
        j = j + 1;
    }
    assert(segments_view(incoming@).take(incoming.len() as int) == segments_view(incoming@));
}

} // verus!

verus! {

// ---------------------------------------------------------------------------
// Chunk ranges
// ---------------------------------------------------------------------------

/// The sample ranges of chunks of `chunk` samples starting at `start`, each
/// starting `chunk - overlap` samples after the previous one, until one
/// reaches the end.
pub open spec fn chunk_ranges_from(start: nat, total: nat, chunk: nat, overlap: nat) -> Seq<
    (usize, usize),
>
    decreases total - start,
{
    if start >= total || overlap >= chunk {
        seq![]
    } else {
        let end: nat = if start + chunk < total {
            start + chunk
        } else {
            total
        };
        if end >= total {
            seq![(start as usize, end as usize)]
        } else {
            seq![(start as usize, end as usize)] + chunk_ranges_from(
                (start + (chunk - overlap)) as nat,
                total,
                chunk,
                overlap,
            )
        }
    }
}

/// The chunk plan for `total` samples: chunk and overlap lengths are the
/// given durations in samples; a chunk of no samples, or an overlap as long
/// as a chunk, is refused.
pub open spec fn chunk_plan_spec(total: nat, chunk: nat, overlap: nat) -> Result<
    Seq<(usize, usize)>,
    Seq<char>,
> {
    if chunk == 0 {
        Err("chunk size rounded to zero samples"@)
    } else if overlap >= chunk {
        Err("overlap size rounded to chunk size or larger"@)
    } else {
        Ok(chunk_ranges_from(0, total, chunk, overlap))
    }
}

pub open spec fn ranges_result_view(r: Result<Vec<(usize, usize)>, String>) -> Result<
    Seq<(usize, usize)>,
    Seq<char>,
> {
    match r {
        Ok(v) => Ok(v@),
        Err(e) => Err(e@),
    }
}

/// Splits `total_samples` samples into chunks of `chunk_seconds` that overlap
/// by `chunk_overlap_seconds` (both converted to samples at `sample_rate`
/// and rounded).  Fails when a chunk rounds to no samples or the overlap to a
/// whole chunk or more.
pub fn build_chunk_ranges(
    total_samples: usize,
    sample_rate: usize,
    chunk_seconds: Binary64,
    chunk_overlap_seconds: Binary64,
) -> (r: Result<Vec<(usize, usize)>, String>)
    ensures
        ranges_result_view(r) == chunk_plan_spec(
            total_samples as nat,
            samples_spec(chunk_seconds.bits, sample_rate as nat),
            samples_spec(chunk_overlap_seconds.bits, sample_rate as nat),
        ),
{
    let chunk_samples = chunk_seconds.samples_at_rate(sample_rate);
    let overlap_samples = chunk_overlap_seconds.samples_at_rate(sample_rate);
    if chunk_samples == 0 {
        return Err("chunk size rounded to zero samples".to_string());
    }
    if overlap_samples >= chunk_samples {
        return Err("overlap size rounded to chunk size or larger".to_string());
    }
    let step = chunk_samples - overlap_samples;
    let ghost total = total_samples as nat;
    let ghost c = chunk_samples as nat;
    let ghost o = overlap_samples as nat;
    let mut ranges: Vec<(usize, usize)> = Vec::new();
    let mut start: usize = 0;
    let mut done = false;
    while !done && start < total_samples
        invariant
            step == chunk_samples - overlap_samples,
            0 < step <= chunk_samples,
            overlap_samples < chunk_samples,
            c == chunk_samples,
            o == overlap_samples,
            total == total_samples,
            done ==> ranges@ == chunk_ranges_from(0, total, c, o),
            !done ==> ranges@ + chunk_ranges_from(start as nat, total, c, o) == chunk_ranges_from(
                0,
                total,
                c,
                o,
            ),
        decreases total_samples - start + if done { 0int } else { 1int },
    {
        let end = if chunk_samples < total_samples - start {
            start + chunk_samples
        } else {
            total_samples
        };
        let ghost rest = chunk_ranges_from(start as nat, total, c, o);
        ranges.push((start, end));
        if end >= total_samples {
            assert(rest == seq![(start, end)]);
            assert(ranges@ == chunk_ranges_from(0, total, c, o));
            done = true;
        } else {
            assert(rest == seq![(start, end)] + chunk_ranges_from(
                (start + step) as nat,
                total,
                c,
                o,
            ));
            assert(ranges@ + chunk_ranges_from((start + step) as nat, total, c, o)
                == chunk_ranges_from(0, total, c, o));
            start = start + step;
        }
    }
    if !done {
        assert(chunk_ranges_from(start as nat, total, c, o) == Seq::<(usize, usize)>::empty());
        assert(ranges@ + Seq::<(usize, usize)>::empty() == ranges@);
    }
    Ok(ranges)
}

} // verus!

verus! {

/// Chunk ranges from `start` on: they start at `start`, end at the last
/// sample, are non-empty, at most `chunk` long, and each starts `chunk -
/// overlap` after the previous one and no later than the previous end.
proof fn lemma_chunk_ranges_from(start: nat, total: nat, chunk: nat, overlap: nat)
    requires
        overlap < chunk,
        start < total,
        total <= usize::MAX,
    ensures
        ({
            let r = chunk_ranges_from(start, total, chunk, overlap);
            &&& r.len() > 0
            &&& r[0].0 == start
            &&& r.last().1 == total
            &&& forall|i: int|
                0 <= i < r.len() ==> #[trigger] r[i].0 < r[i].1 <= total && r[i].1 - r[i].0
                    <= chunk
            &&& forall|i: int|
                0 <= i < r.len() - 1 ==> #[trigger] r[i + 1].0 == r[i].0 + (chunk - overlap)
                    && r[i + 1].0 <= r[i].1
        }),
    decreases total - start,
{
    let r = chunk_ranges_from(start, total, chunk, overlap);
    let end: nat = if start + chunk < total {
        start + chunk
    } else {
        total
    };
    if end < total {
        let next = (start + (chunk - overlap)) as nat;
        lemma_chunk_ranges_from(next, total, chunk, overlap);
        let rest = chunk_ranges_from(next, total, chunk, overlap);
        assert(r == seq![(start as usize, end as usize)] + rest);
        assert forall|i: int| 0 <= i < r.len() implies #[trigger] r[i].0 < r[i].1 <= total && r[i].1
            - r[i].0 <= chunk by {
            if i > 0 {
                assert(r[i] == rest[i - 1]);
            }
        }
        assert forall|i: int| 0 <= i < r.len() - 1 implies #[trigger] r[i + 1].0 == r[i].0 + (chunk
            - overlap) && r[i + 1].0 <= r[i].1 by {
            assert(r[i + 1] == rest[i]);
            if i > 0 {
                assert(r[i] == rest[i - 1]);
                let k = i - 1;
                assert(0 <= k < rest.len() - 1);
                assert(rest[k + 1].0 == rest[k].0 + (chunk - overlap) && rest[k + 1].0 <= rest[k].1);
            } else {
                assert(r[0] == (start as usize, end as usize));
                assert(rest[0].0 == next);
            }
        }
        assert(r.last() == rest.last());
    }
}

/// The chunks of a valid plan cover the whole recording without gaps: there
/// are none for an empty recording; otherwise the first starts at sample 0,
/// the last ends at the last sample, each holds between one and `chunk`
/// samples, and each starts `chunk - overlap` samples after the previous one
/// and no later than where the previous one ends.
pub proof fn lemma_chunk_ranges_cover(total: nat, chunk: nat, overlap: nat)
    requires
        overlap < chunk,
        total <= usize::MAX,
    ensures
        ({
            let r = chunk_ranges_from(0, total, chunk, overlap);
            &&& (r.len() == 0 <==> total == 0)
            &&& total > 0 ==> r[0].0 == 0 && r.last().1 == total
            &&& forall|i: int|
                0 <= i < r.len() ==> #[trigger] r[i].0 < r[i].1 <= total && r[i].1 - r[i].0
                    <= chunk
            &&& forall|i: int|
                0 <= i < r.len() - 1 ==> #[trigger] r[i + 1].0 == r[i].0 + (chunk - overlap)
                    && r[i + 1].0 <= r[i].1
        }),
{
    if total > 0 {
        lemma_chunk_ranges_from(0, total, chunk, overlap);
    }
}

} // verus!

verus! {

// ---------------------------------------------------------------------------
// Segments reported by the speech model
// ---------------------------------------------------------------------------

/// A segment as the speech model reports it, its times in seconds.
#[derive(Clone, Debug, PartialEq)]
pub struct ModelSegment {
    pub start_s: Binary64,
    pub end_s: Binary64,
    pub text: String,
}

/// The model's segments with trimmed text, keeping those with text that end
/// after they start.
pub open spec fn kept_model_segments(segs: Seq<ModelSegment>) -> Seq<SegmentSpec>
    decreases segs.len(),
{
    if segs.len() == 0 {
        seq![]
    } else {
        let s = segs.last();
        let r = kept_model_segments(segs.drop_last());
        if trim(s.text@).len() > 0 && ieee_lt(s.start_s.bits, s.end_s.bits) {
            r.push(SegmentSpec { start: s.start_s.bits, end: s.end_s.bits, text: trim(s.text@), speaker: None })
        } else {
            r
        }
    }
}

/// The transcript segments of one transcription: the model's own segments
/// when it gave any worth keeping, else the whole text over the fallback
/// span.
pub open spec fn transcription_segments_spec(
    segments: Option<Seq<ModelSegment>>,
    text: Seq<char>,
    fallback_start: u64,
    fallback_end: u64,
) -> Seq<SegmentSpec> {
    match segments {
        Some(v) => if kept_model_segments(v).len() > 0 {
            kept_model_segments(v)
        } else {
            segments_from_text_spec(text, fallback_start, fallback_end)
        },
        None => segments_from_text_spec(text, fallback_start, fallback_end),
    }
}

/// Turns one transcription into transcript segments (see
/// `transcription_segments_spec`).
pub fn transcript_segments_from_transcription(
    segments: &Option<Vec<ModelSegment>>,
    text: &str,
    fallback_start_s: Binary64,
    fallback_end_s: Binary64,
) -> (r: Vec<TranscriptSegment>)
    ensures
        segments_view(r@) == transcription_segments_spec(
            match segments {
                Some(v) => Some(v@),
                None => None,
            },
            text@,
            fallback_start_s.bits,
            fallback_end_s.bits,
        ),
{
    if let Some(v) = segments {
        let mut collected: Vec<TranscriptSegment> = Vec::new();
        let mut i: usize = 0;
        while i < v.len()
            invariant
                i <= v.len(),
                segments_view(collected@) == kept_model_segments(v@.take(i as int)),
            decreases v.len() - i,
        {
            assert(v@.take(i + 1).drop_last() == v@.take(i as int));
            assert(v@.take(i + 1).last() == v@[i as int]);
            let s = &v[i];
            let t = trim_str(s.text.as_str());
            if t.len() > 0 && s.start_s.lt(s.end_s) {
                let ghost before = collected@;
                collected.push(
                    TranscriptSegment {
                        start_s: s.start_s,
                        end_s: s.end_s,
                        text: string_of(t.as_slice()),
                        speaker: None,
                    },
                );
                assert(segments_view(collected@) == segments_view(before).push(collected@.last()@));
            }
            i = i + 1;
        }
        assert(v@.take(v.len() as int) == v@);
        if collected.len() > 0 {
            return collected;
        }
    }
    transcript_segments_from_text(text, fallback_start_s, fallback_end_s)
}

} // verus!

verus! {

/// Whether a run's speed figures are computed: the audio has a positive,
/// finite length and the work took a positive time.  Otherwise both figures
/// are reported as zero.
pub open spec fn speeds_defined_spec(audio_seconds: u64, total_inside_seconds: u64) -> bool {
    !(ieee_le(audio_seconds, 0) || !is_finite(audio_seconds) || ieee_le(total_inside_seconds, 0))
}

/// See `speeds_defined_spec`.
pub fn benchmark_speeds_defined(audio_seconds: Binary64, total_inside_seconds: Binary64) -> (r: bool)
    ensures
        r == speeds_defined_spec(audio_seconds.bits, total_inside_seconds.bits),
{
    let zero = Binary64 { bits: 0 };
    !(audio_seconds.le(zero) || !audio_seconds.is_finite() || total_inside_seconds.le(zero))
}

} // verus!

verus! {

proof fn lemma_word_pairs_written(ws: Seq<Seq<char>>)
    ensures
        written_forms(word_pairs(ws)) == ws.filter(|w: Seq<char>| normalize_word_spec(w).len() > 0),
        norms(word_pairs(ws)) == written_forms(word_pairs(ws)).map_values(
            |w: Seq<char>| normalize_word_spec(w),
        ),
    decreases ws.len(),
{
    reveal(Seq::filter);
    if ws.len() > 0 {
        lemma_word_pairs_written(ws.drop_last());
        let r = word_pairs(ws.drop_last());
        let n = normalize_word_spec(ws.last());
        if n.len() > 0 {
            assert(written_forms(r.push((ws.last(), n))) =~= written_forms(r).push(ws.last()));
            assert(norms(r.push((ws.last(), n))) =~= norms(r).push(n));
            assert(written_forms(r).push(ws.last()).map_values(|w: Seq<char>| normalize_word_spec(w))
                =~= written_forms(r).map_values(|w: Seq<char>| normalize_word_spec(w)).push(n));
        }
    } else {
        assert(written_forms(word_pairs(ws)) =~= Seq::<Seq<char>>::empty());
        assert(norms(word_pairs(ws)) =~= Seq::<Seq<char>>::empty());
    }
}

/// The words compared across a chunk boundary are the text's words exactly
/// as written, in order, leaving out those without an alphanumeric
/// character; each is compared by its lower-cased alphanumeric core.
pub proof fn lemma_compared_words_as_written(text: Seq<char>)
    ensures
        written_forms(normalized_words_spec(text)) == words(text).filter(
            |w: Seq<char>| normalize_word_spec(w).len() > 0,
        ),
        norms(normalized_words_spec(text)) == written_forms(normalized_words_spec(text)).map_values(
            |w: Seq<char>| normalize_word_spec(w),
        ),
{
    lemma_word_pairs_written(words(text));
}

proof fn lemma_best_overlap_accepted(
    lw: Seq<(Seq<char>, Seq<char>)>,
    rw: Seq<(Seq<char>, Seq<char>)>,
    k: nat,
    ends_sentence: bool,
)
    ensures
        best_overlap(lw, rw, k, ends_sentence) <= k,
        best_overlap(lw, rw, k, ends_sentence) > 0 ==> overlap_accepted(
            lw,
            rw,
            best_overlap(lw, rw, k, ends_sentence) as int,
            ends_sentence,
        ),
    decreases k,
{
    if k > 0 && !overlap_accepted(lw, rw, k as int, ends_sentence) {
        lemma_best_overlap_accepted(lw, rw, (k - 1) as nat, ends_sentence);
    }
}

proof fn lemma_best_overlap_longest(
    lw: Seq<(Seq<char>, Seq<char>)>,
    rw: Seq<(Seq<char>, Seq<char>)>,
    k: nat,
    ends_sentence: bool,
)
    ensures
        forall|j: int|
            best_overlap(lw, rw, k, ends_sentence) < j <= k ==> !#[trigger] overlap_accepted(
                lw,
                rw,
                j,
                ends_sentence,
            ),
    decreases k,
{
    if k > 0 && !overlap_accepted(lw, rw, k as int, ends_sentence) {
        lemma_best_overlap_longest(lw, rw, (k - 1) as nat, ends_sentence);
    }
}

/// The rule for dropping repeated words, stated on its own: the last `k`
/// compared words of the left text equal (as lower-cased cores) the first
/// `k` of the right text, and a single word counts only when the left text
/// does not end a sentence.
pub open spec fn repeat_allowed(
    lw: Seq<(Seq<char>, Seq<char>)>,
    rw: Seq<(Seq<char>, Seq<char>)>,
    k: int,
    ends_sentence: bool,
) -> bool {
    &&& forall|i: int| 0 <= i < k ==> lw[lw.len() - k + i].1 == #[trigger] rw[i].1
    &&& k >= 2 || !ends_sentence
}

/// The edges of stitching: with one side blank the result is the other side,
/// trimmed; when either side has no word with an alphanumeric character the
/// two are joined by one space.
pub proof fn lemma_merge_edges(left: Seq<char>, right: Seq<char>)
    ensures
        trim(left).len() == 0 ==> merge_chunk_texts_spec(left, right) == trim(right),
        trim(right).len() == 0 ==> merge_chunk_texts_spec(left, right) == trim(left),
        trim(left).len() > 0 && trim(right).len() > 0 && (normalized_words_spec(trim(left)).len()
            == 0 || normalized_words_spec(trim(right)).len() == 0) ==> merge_chunk_texts_spec(
            left,
            right,
        ) == trim(left) + seq![' '] + trim(right),
{
}

/// Stitching takes the longest overlap that is allowed: with both texts
/// holding compared words, when no overlap of `1..=K` words is accepted
/// (`K` the smallest of the two word counts and the comparison limit) the
/// right text is appended whole after a space; otherwise the longest
/// accepted `k` is dropped from the right text and its remaining words
/// follow the left text as written.
pub proof fn lemma_merge_takes_longest_overlap(left: Seq<char>, right: Seq<char>)
    ensures
        ({
            let l = trim(left);
            let r = trim(right);
            let m = merge_chunk_texts_spec(left, right);
            let lw = normalized_words_spec(l);
            let rw = normalized_words_spec(r);
            let big = min3(lw.len(), rw.len(), MAX_OVERLAP_WORDS as nat) as int;
            let es = ends_with_sentence_punctuation_spec(l);
            l.len() > 0 && r.len() > 0 && lw.len() > 0 && rw.len() > 0 ==> {
                &&& (forall|k: int| 1 <= k <= big ==> !#[trigger] repeat_allowed(lw, rw, k, es))
                    ==> m == l + seq![' '] + r
                &&& forall|k: int|
                    1 <= k <= big && #[trigger] repeat_allowed(lw, rw, k, es) && (forall|j: int|
                        k < j <= big ==> !#[trigger] repeat_allowed(lw, rw, j, es)) ==> m == (
                    if join(written_forms(rw).skip(k), seq![' ']).len() == 0 {
                        l
                    } else {
                        l + seq![' '] + join(written_forms(rw).skip(k), seq![' '])
                    })
            }
        }),
{
    let l = trim(left);
    let r = trim(right);
    let lw = normalized_words_spec(l);
    let rw = normalized_words_spec(r);
    if l.len() > 0 && r.len() > 0 && lw.len() > 0 && rw.len() > 0 {
        let k0 = min3(lw.len(), rw.len(), MAX_OVERLAP_WORDS as nat);
        let es = ends_with_sentence_punctuation_spec(l);
        lemma_best_overlap_accepted(lw, rw, k0, es);
        lemma_best_overlap_longest(lw, rw, k0, es);
        let best = best_overlap(lw, rw, k0, es);
        assert forall|k: int| #[trigger] repeat_allowed(lw, rw, k, es) == overlap_accepted(
            lw,
            rw,
            k,
            es,
        ) by {
            if repeat_allowed(lw, rw, k, es) {
                assert forall|i: int| 0 <= i < k implies #[trigger] lw[lw.len() - k + i].1
                    == rw[i].1 by {
                    assert(rw[i].1 == rw[i].1);
                }
            }
            if overlap_accepted(lw, rw, k, es) {
                assert forall|i: int| 0 <= i < k implies lw[lw.len() - k + i].1
                    == #[trigger] rw[i].1 by {
                    assert(lw[lw.len() - k + i].1 == rw[i].1);
                }
            }
        }
        let big = k0 as int;
        if best > 0 {
            assert(written_forms(rw.skip(best as int)) =~= written_forms(rw).skip(best as int));
            assert(overlap_accepted(lw, rw, best as int, es));
            assert(repeat_allowed(lw, rw, best as int, es));
        }
        assert forall|k: int|
            1 <= k <= big && #[trigger] repeat_allowed(lw, rw, k, es) && (forall|j: int|
                k < j <= big ==> !#[trigger] repeat_allowed(lw, rw, j, es)) implies best == k by {
            assert(overlap_accepted(lw, rw, k, es));
            if best < k {
                assert(!overlap_accepted(lw, rw, k, es));
            }
            if best > k {
                assert(!repeat_allowed(lw, rw, best as int, es));
            }
        }
    }
}

/// Stitching two non-blank chunk texts: either the right text is appended
/// whole after one space, or its first `k >= 1` compared words (lower-cased
/// alphanumeric cores; words without one are not compared) repeat the last
/// `k` compared words of the left text, and the result is the left text
/// followed by the remaining words of the right text exactly as written
/// (case and punctuation kept), separated by single spaces, or the left
/// text alone when none remain.
pub proof fn lemma_merge_keeps_written_words(left: Seq<char>, right: Seq<char>)
    ensures
        ({
            let l = trim(left);
            let r = trim(right);
            let m = merge_chunk_texts_spec(left, right);
            let lw = normalized_words_spec(l);
            let rw = normalized_words_spec(r);
            l.len() > 0 && r.len() > 0 ==> m == l + seq![' '] + r || exists|k: int|
                1 <= k <= lw.len() && k <= rw.len() && #[trigger] shares_words(lw, rw, k) && m == (
                if join(written_forms(rw).skip(k), seq![' ']).len() == 0 {
                    l
                } else {
                    l + seq![' '] + join(written_forms(rw).skip(k), seq![' '])
                })
        }),
{
    let l = trim(left);
    let r = trim(right);
    if l.len() > 0 && r.len() > 0 {
        let lw = normalized_words_spec(l);
        let rw = normalized_words_spec(r);
        if lw.len() > 0 && rw.len() > 0 {
            let k0 = min3(lw.len(), rw.len(), MAX_OVERLAP_WORDS as nat);
            let es = ends_with_sentence_punctuation_spec(l);
            lemma_best_overlap_accepted(lw, rw, k0, es);
            let best = best_overlap(lw, rw, k0, es);
            if best > 0 {
                assert(written_forms(rw.skip(best as int)) =~= written_forms(rw).skip(best as int));
                assert(shares_words(lw, rw, best as int));
            }
        }
    }
}

/// Merging chunk texts never rewrites the earlier text: the result starts
/// with the trimmed left text (when there is any), and only words at the
/// start of the right text are dropped.
pub proof fn lemma_merge_keeps_left(left: Seq<char>, right: Seq<char>)
    requires
        trim(left).len() > 0,
    ensures
        merge_chunk_texts_spec(left, right).len() >= trim(left).len(),
        merge_chunk_texts_spec(left, right).take(trim(left).len() as int) == trim(left),
{
    let l = trim(left);
    let m = merge_chunk_texts_spec(left, right);
    assert(l.take(l.len() as int) =~= l);
    assert(m.take(l.len() as int) =~= l);
}

/// Adding one segment of a later chunk: when it does not share time with the
/// last merged segment (its start is not before that one's end, or the
/// other way round), it is appended as it is; otherwise it is either
/// appended or folded into the last merged segment, which keeps its start
/// and speaker, is stretched to the later end, and keeps its text or takes
/// the stitched text of the two.
pub proof fn lemma_merge_one_segment(existing: Seq<SegmentSpec>, seg: SegmentSpec)
    ensures
        ({
            let r = merge_segments_spec(existing, seq![seg]);
            &&& (existing.len() == 0 || !ieee_lt(
                ieee_max(existing.last().start, seg.start),
                ieee_min(existing.last().end, seg.end),
            )) ==> r == existing.push(seg)
            &&& r == existing.push(seg) || {
                &&& existing.len() > 0
                &&& r.len() == existing.len()
                &&& r.drop_last() == existing.drop_last()
                &&& r.last().start == existing.last().start
                &&& r.last().end == ieee_max(existing.last().end, seg.end)
                &&& r.last().speaker == existing.last().speaker
                &&& (r.last().text == existing.last().text || r.last().text
                    == merge_chunk_texts_spec(existing.last().text, seg.text))
            }
        }),
{
    let one = seq![seg];
    assert(one.drop_last() =~= Seq::<SegmentSpec>::empty());
    assert(one.last() == seg);
    assert(merge_segments_spec(existing, one.drop_last()) == existing);
    let r = merge_segments_spec(existing, one);
    if existing.len() > 0 {
        assert(r.drop_last() =~= existing.drop_last() || r == existing.push(seg));
    }
}

/// Adding the segments of a later chunk leaves every merged segment but the
/// last untouched: the last one may be stretched or take merged text, and
/// the rest are appended, one list entry at most per incoming segment.
pub proof fn lemma_merge_segments_keeps_earlier(existing: Seq<SegmentSpec>, incoming: Seq<SegmentSpec>)
    ensures
        ({
            let r = merge_segments_spec(existing, incoming);
            &&& existing.len() <= r.len() <= existing.len() + incoming.len()
            &&& forall|i: int| 0 <= i < existing.len() - 1 ==> #[trigger] r[i] == existing[i]
        }),
    decreases incoming.len(),
{
    if incoming.len() > 0 {
        lemma_merge_segments_keeps_earlier(existing, incoming.drop_last());
        let prev = merge_segments_spec(existing, incoming.drop_last());
        let r = merge_segments_spec(existing, incoming);
        assert(r == merge_segment_step(prev, incoming.last()));
        assert forall|i: int| 0 <= i < existing.len() - 1 implies #[trigger] r[i] == existing[i] by {
            assert(prev[i] == existing[i]);
            assert(i < prev.len() - 1);
        }
    }
}

} // verus!
