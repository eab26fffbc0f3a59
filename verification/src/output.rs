//! Transcript output: time stamps, speaker labels, repetition cleaning, and
//! the text, speaker, subtitle and file-name renderings.

use vstd::prelude::*;

use crate::binary64::{ieee_lt, millis_spec, whole_seconds_spec, Binary64};
use crate::number::{all_digits, parse_usize, usize_from_str};
use crate::text::{
    append_chars, append_str, chars_eq, chars_of, char_is_alphanumeric, collapse_whitespace,
    collapse_ws, decimal, is_ascii_digit, join, join_chars, push_char, push_padded,
    slice_chars, split_ws, string_of, suffix_from, starts_with_lit, to_lowercase, trim,
    trim_chars, trim_str, unicode_alphanumeric, unicode_lowercase, views, words, zero_pad,
};
use crate::types::{SegmentSpec, TranscriptSegment};

verus! {

// ---------------------------------------------------------------------------
// Time stamps
// ---------------------------------------------------------------------------

/// `{:02}`.
pub open spec fn two_digits(n: nat) -> Seq<char> {
    zero_pad(decimal(n), 2)
}

/// `HH:MM:SS` for a number of whole seconds.
pub open spec fn hhmmss_spec(total: nat) -> Seq<char> {
    two_digits(total / 3600) + ":"@ + two_digits((total % 3600) / 60) + ":"@ + two_digits(
        total % 60,
    )
}

/// `HH:MM:SS<sep>mmm` for a number of milliseconds.
pub open spec fn subtitle_timestamp_spec(total: nat, sep: char) -> Seq<char> {
    two_digits(total / 3_600_000) + ":"@ + two_digits((total % 3_600_000) / 60_000) + ":"@
        + two_digits((total % 60_000) / 1_000) + seq![sep] + zero_pad(decimal(total % 1_000), 3)
}

/// `HH:MM:SS` shows hours, minutes and seconds: the time `h` hours, `m`
/// minutes and `s` seconds (`m` and `s` below 60) reads `h:m:s`, each field
/// in at least two digits.
pub proof fn lemma_hhmmss_fields(h: nat, m: nat, s: nat)
    requires
        m < 60,
        s < 60,
    ensures
        hhmmss_spec(h * 3600 + m * 60 + s) == two_digits(h) + ":"@ + two_digits(m) + ":"@ + two_digits(
            s,
        ),
{
    let t = h * 3600 + m * 60 + s;
    assert(t / 3600 == h && t % 3600 == m * 60 + s) by (nonlinear_arith)
        requires
            t == h * 3600 + m * 60 + s,
            m < 60,
            s < 60,
    ;
    assert((m * 60 + s) / 60 == m && t % 60 == s) by (nonlinear_arith)
        requires
            t == h * 3600 + m * 60 + s,
            m < 60,
            s < 60,
    ;
}

/// `HH:MM:SS,mmm` shows hours, minutes, seconds and milliseconds: the time
/// `h` hours, `m` minutes, `s` seconds and `ms` milliseconds (`m`, `s`
/// below 60, `ms` below 1000) reads `h:m:s` and `ms` in three digits.
pub proof fn lemma_subtitle_timestamp_fields(h: nat, m: nat, s: nat, ms: nat, sep: char)
    requires
        m < 60,
        s < 60,
        ms < 1000,
    ensures
        subtitle_timestamp_spec(h * 3_600_000 + m * 60_000 + s * 1000 + ms, sep) == two_digits(h)
            + ":"@ + two_digits(m) + ":"@ + two_digits(s) + seq![sep] + zero_pad(decimal(ms), 3),
{
    let t = h * 3_600_000 + m * 60_000 + s * 1000 + ms;
    assert(t / 3_600_000 == h && t % 3_600_000 == m * 60_000 + s * 1000 + ms) by (nonlinear_arith)
        requires
            t == h * 3_600_000 + m * 60_000 + s * 1000 + ms,
            m < 60,
            s < 60,
            ms < 1000,
    ;
    assert((m * 60_000 + s * 1000 + ms) / 60_000 == m && t % 60_000 == s * 1000 + ms) by (
    nonlinear_arith)
        requires
            t == h * 3_600_000 + m * 60_000 + s * 1000 + ms,
            m < 60,
            s < 60,
            ms < 1000,
    ;
    assert((s * 1000 + ms) / 1000 == s && t % 1000 == ms) by (nonlinear_arith)
        requires
            t == h * 3_600_000 + m * 60_000 + s * 1000 + ms,
            s < 60,
            ms < 1000,
    ;
}

/// `HH:MM:SS` of a time stamp, truncated to whole seconds.
pub fn format_hhmmss(seconds: Binary64) -> (r: String)
    ensures
        r@ == hhmmss_spec(whole_seconds_spec(seconds.bits)),
{
    let total = seconds.whole_seconds();
    let mut s = String::new();
    push_padded(&mut s, total / 3600, 2);
    append_str(&mut s, ":");
    push_padded(&mut s, (total % 3600) / 60, 2);
    append_str(&mut s, ":");
    push_padded(&mut s, total % 60, 2);
    s
}

/// `HH:MM:SS,mmm` (SubRip) or `HH:MM:SS.mmm` (WebVTT) of a time stamp,
/// rounded to milliseconds.
pub fn format_subtitle_timestamp(seconds: Binary64, millis_separator: char) -> (r: String)
    ensures
        r@ == subtitle_timestamp_spec(millis_spec(seconds.bits), millis_separator),
{
    let total = seconds.millis();
    let mut s = String::new();
    push_padded(&mut s, total / 3_600_000, 2);
    append_str(&mut s, ":");
    push_padded(&mut s, (total % 3_600_000) / 60_000, 2);
    append_str(&mut s, ":");
    push_padded(&mut s, (total % 60_000) / 1_000, 2);
    push_char(&mut s, millis_separator);
    push_padded(&mut s, total % 1_000, 3);
    s
}

// ---------------------------------------------------------------------------
// Speaker labels
// ---------------------------------------------------------------------------

pub open spec fn has_prefix(a: Seq<char>, p: Seq<char>) -> bool {
    p.len() <= a.len() && a.take(p.len() as int) == p
}

/// What follows `SPEAKER_`, or else what follows `S`.
pub open spec fn speaker_suffix(c: Seq<char>) -> Option<Seq<char>> {
    if has_prefix(c, "SPEAKER_"@) {
        Some(c.skip("SPEAKER_"@.len() as int))
    } else if has_prefix(c, "S"@) {
        Some(c.skip("S"@.len() as int))
    } else {
        None
    }
}

/// `S1`, `S12` and `SPEAKER_2` become `SPEAKER_01`, `SPEAKER_12` and
/// `SPEAKER_02`; a blank label becomes `unknown`; anything else is kept,
/// trimmed.
pub open spec fn normalize_label_spec(label: Seq<char>, unknown: Seq<char>) -> Seq<char> {
    let c = trim(label);
    if c.len() == 0 {
        unknown
    } else {
        match speaker_suffix(c) {
            Some(sfx) => if sfx.len() > 0 && all_digits(sfx) && usize_from_str(sfx) is Some {
                "SPEAKER_"@ + two_digits(usize_from_str(sfx)->Some_0 as nat)
            } else {
                c
            },
            None => c,
        }
    }
}

proof fn lemma_label_parts(prefix: Seq<char>, n: usize)
    requires
        prefix.len() > 0,
        !crate::text::is_ws(prefix[0]),
    ensures
        trim(prefix + decimal(n as nat)) == prefix + decimal(n as nat),
        (prefix + decimal(n as nat)).skip(prefix.len() as int) == decimal(n as nat),
        all_digits(decimal(n as nat)),
        decimal(n as nat).len() > 0,
        usize_from_str(decimal(n as nat)) == Some(n),
{
    let d = decimal(n as nat);
    crate::number::lemma_decimal_digits(n as nat);
    crate::number::lemma_usize_decimal_round_trip(n);
    let v = prefix + d;
    assert(v[0] == prefix[0]);
    assert(crate::text::trim_start(v) == v);
    assert(v.last() == d.last());
    assert(is_ascii_digit(d[d.len() - 1]));
    assert(crate::text::trim_end(v) == v);
    assert(v.skip(prefix.len() as int) =~= d);
}

/// Speaker labels as diarization writes them, `S<n>` or `SPEAKER_<n>`, come
/// out as `SPEAKER_` with the number in at least two digits; a blank label
/// becomes the given placeholder.
pub proof fn lemma_speaker_labels_numbered(n: usize, unknown: Seq<char>, blank: Seq<char>)
    requires
        forall|k: int| 0 <= k < blank.len() ==> crate::text::is_ws(#[trigger] blank[k]),
    ensures
        normalize_label_spec("S"@ + decimal(n as nat), unknown) == "SPEAKER_"@ + two_digits(n as nat),
        normalize_label_spec("SPEAKER_"@ + decimal(n as nat), unknown) == "SPEAKER_"@ + two_digits(
            n as nat,
        ),
        normalize_label_spec(blank, unknown) == unknown,
{
    reveal_strlit("S");
    reveal_strlit("SPEAKER_");
    let d = decimal(n as nat);
    lemma_label_parts("S"@, n);
    lemma_label_parts("SPEAKER_"@, n);
    let a = "S"@ + d;
    crate::number::lemma_decimal_digits(n as nat);
    if "SPEAKER_"@.len() <= a.len() {
        assert(a.take(8)[1] == a[1]);
        assert(a[1] == d[0]);
        assert(is_ascii_digit(d[0]));
        assert(!has_prefix(a, "SPEAKER_"@));
    }
    assert(a.take(1) =~= "S"@);
    let b = "SPEAKER_"@ + d;
    assert(b.take(8) =~= "SPEAKER_"@);
    lemma_blank_trims_to_empty(blank);
}

proof fn lemma_blank_trims_to_empty(s: Seq<char>)
    requires
        forall|k: int| 0 <= k < s.len() ==> crate::text::is_ws(#[trigger] s[k]),
    ensures
        trim(s).len() == 0,
    decreases s.len(),
{
    if s.len() > 0 {
        assert(crate::text::is_ws(s[0]));
        let t = s.drop_first();
        assert forall|k: int| 0 <= k < t.len() implies crate::text::is_ws(#[trigger] t[k]) by {
            assert(t[k] == s[k + 1]);
        }
        lemma_blank_trims_to_empty(t);
        assert(crate::text::trim_start(s) == crate::text::trim_start(t));
    }
}

fn all_ascii_digits(v: &[char]) -> (r: bool)
    ensures
        r == all_digits(v@),
{
    let mut i: usize = 0;
    while i < v.len()
        invariant
            i <= v.len(),
            forall|k: int| 0 <= k < i ==> is_ascii_digit(v@[k]),
        decreases v.len() - i,
    {
        if !('0' <= v[i] && v[i] <= '9') {
            assert(!is_ascii_digit(v@[i as int]));
            return false;
        }
        i = i + 1;
    }
    true
}

fn strip_prefix_chars(v: &[char], lit: &str) -> (r: Option<Vec<char>>)
    ensures
        r is Some <==> has_prefix(v@, lit@),
        r matches Some(rest) ==> rest@ == v@.skip(lit@.len() as int),
{
    if starts_with_lit(v, lit) {
        let n = chars_of(lit).len();
        Some(suffix_from(v, n))
    } else {
        None
    }
}

/// Normalizes a diarization speaker label (see `normalize_label_spec`).
pub fn normalize_speaker_label(label: &str, unknown_label: &str) -> (r: String)
    ensures
        r@ == normalize_label_spec(label@, unknown_label@),
{
    let cleaned = trim_str(label);
    if cleaned.len() == 0 {
        return String::from_str(unknown_label);
    }
    let suffix = match strip_prefix_chars(cleaned.as_slice(), "SPEAKER_") {
        Some(s) => Some(s),
        None => strip_prefix_chars(cleaned.as_slice(), "S"),
    };
    if let Some(sfx) = suffix {
        if sfx.len() > 0 && all_ascii_digits(sfx.as_slice()) {
            if let Some(number) = parse_usize(sfx.as_slice()) {
                let mut s = String::from_str("SPEAKER_");
                push_padded(&mut s, number as u64, 2);
                return s;
            }
        }
    }
    string_of(cleaned.as_slice())
}

// ---------------------------------------------------------------------------
// Repeated-word cleaning
// ---------------------------------------------------------------------------

/// Characters that make up the core of a word.
pub open spec fn is_core_char(c: char) -> bool {
    unicode_alphanumeric(c) || c == '\''
}

/// Number of leading characters before the first core character.
pub open spec fn lead_len(s: Seq<char>) -> nat
    decreases s.len(),
{
    if s.len() == 0 {
        0
    } else if is_core_char(s[0]) {
        0
    } else {
        1 + lead_len(s.drop_first())
    }
}

/// Number of trailing characters after the last core character.
pub open spec fn trail_len(s: Seq<char>) -> nat
    decreases s.len(),
{
    if s.len() == 0 {
        0
    } else if is_core_char(s.last()) {
        0
    } else {
        1 + trail_len(s.drop_last())
    }
}

pub open spec fn core_start(s: Seq<char>) -> int {
    lead_len(s) as int
}

pub open spec fn core_end(s: Seq<char>) -> int {
    if lead_len(s) == s.len() {
        s.len() as int
    } else {
        s.len() - trail_len(s)
    }
}

/// Punctuation before the word.
pub open spec fn affix_lead(s: Seq<char>) -> Seq<char> {
    s.take(core_start(s))
}

/// The word itself, from its first to its last core character.
pub open spec fn affix_core(s: Seq<char>) -> Seq<char> {
    s.subrange(core_start(s), core_end(s))
}

/// Punctuation after the word.
pub open spec fn affix_trail(s: Seq<char>) -> Seq<char> {
    s.skip(core_end(s))
}

proof fn lemma_lead_len_skip(s: Seq<char>, k: int)
    requires
        0 <= k <= s.len(),
        forall|j: int| 0 <= j < k ==> !is_core_char(s[j]),
    ensures
        lead_len(s) == k + lead_len(s.skip(k)),
    decreases k,
{
    if k > 0 {
        assert(s.drop_first().skip(k - 1) == s.skip(k));
        lemma_lead_len_skip(s.drop_first(), k - 1);
    } else {
        assert(s.skip(0) == s);
    }
}

proof fn lemma_trail_len_take(s: Seq<char>, k: int)
    requires
        0 <= k <= s.len(),
        forall|j: int| k <= j < s.len() ==> !is_core_char(s[j]),
    ensures
        trail_len(s) == (s.len() - k) + trail_len(s.take(k)),
    decreases s.len() - k,
{
    if k < s.len() {
        assert(s.drop_last().take(k) == s.take(k));
        lemma_trail_len_take(s.drop_last(), k);
    } else {
        assert(s.take(k) == s);
    }
}

/// Splits a token into leading punctuation, word, and trailing punctuation.
pub fn split_token_affixes(token: &[char]) -> (r: (Vec<char>, Vec<char>, Vec<char>))
    ensures
        r.0@ == affix_lead(token@),
        r.1@ == affix_core(token@),
        r.2@ == affix_trail(token@),
{
    let n = token.len();
    let mut start: usize = 0;
    while start < n && !(char_is_alphanumeric(token[start]) || token[start] == '\'')
        invariant
            start <= n,
            n == token.len(),
            forall|j: int| 0 <= j < start ==> !is_core_char(token@[j]),
        decreases n - start,
    {
        start = start + 1;
    }
    proof {
        lemma_lead_len_skip(token@, start as int);
        if start < n {
            assert(token@.skip(start as int)[0] == token@[start as int]);
        }
    }
    let mut end: usize = n;
    if start < n {
        while end > start && !(char_is_alphanumeric(token[end - 1]) || token[end - 1] == '\'')
            invariant
                start < n,
                start <= end <= n,
                n == token.len(),
                is_core_char(token@[start as int]),
                forall|j: int| end <= j < n ==> !is_core_char(token@[j]),
            decreases end,
        {
            end = end - 1;
        }
        proof {
            if end == start {
                assert(false);
            }
            lemma_trail_len_take(token@, end as int);
            assert(token@.take(end as int).last() == token@[end - 1]);
        }
    } else {
        end = start;
    }
    (slice_chars(token, 0, start), slice_chars(token, start, end), slice_chars(token, end, n))
}

/// Short function words and hesitation sounds, whose runs are cut at four.
pub open spec fn is_allowlisted(s: Seq<char>) -> bool {
    s == "a"@ || s == "ah"@ || s == "and"@ || s == "de"@ || s == "e"@ || s == "eh"@ || s == "eu"@
        || s == "i"@ || s == "o"@ || s == "the"@ || s == "to"@ || s == "uh"@ || s == "um"@
        || s == "we"@
}

/// Hesitation sounds.
pub open spec fn is_filler(s: Seq<char>) -> bool {
    s == "ah"@ || s == "eh"@ || s == "uh"@ || s == "um"@
}

/// How many repetitions of a (lower-cased) word make a run pathological:
/// four for fillers and short function words, five for other words of at
/// most three characters, never for longer words.
pub open spec fn threshold_spec(normalized: Seq<char>) -> Option<usize> {
    if normalized.len() == 0 {
        None
    } else if is_filler(normalized) || is_allowlisted(normalized) {
        Some(4)
    } else if normalized.len() <= 3 {
        Some(5)
    } else {
        None
    }
}

fn threshold_of(normalized: &[char]) -> (r: Option<usize>)
    ensures
        r == threshold_spec(normalized@),
{
    if normalized.len() == 0 {
        return None;
    }
    let listed = chars_eq(normalized, "ah") || chars_eq(normalized, "eh") || chars_eq(
        normalized,
        "uh",
    ) || chars_eq(normalized, "um") || chars_eq(normalized, "a") || chars_eq(normalized, "and")
        || chars_eq(normalized, "de") || chars_eq(normalized, "e") || chars_eq(normalized, "eu")
        || chars_eq(normalized, "i") || chars_eq(normalized, "o") || chars_eq(normalized, "the")
        || chars_eq(normalized, "to") || chars_eq(normalized, "we");
    if listed {
        Some(4)
    } else if normalized.len() <= 3 {
        Some(5)
    } else {
        None
    }
}

/// Repetition threshold of a lower-cased word (see `threshold_spec`).
pub fn repeated_word_threshold(normalized: &str) -> (r: Option<usize>)
    ensures
        r == threshold_spec(normalized@),
{
    let v = chars_of(normalized);
    threshold_of(v.as_slice())
}

/// The lower-cased word of a token: what runs are compared by.
pub open spec fn run_key(token: Seq<char>) -> Seq<char> {
    unicode_lowercase(affix_core(token))
}

/// First index at or after `j` whose token does not have key `key`.
pub open spec fn run_end(toks: Seq<Seq<char>>, j: int, key: Seq<char>) -> int
    decreases toks.len() - j,
{
    if 0 <= j < toks.len() && run_key(toks[j]) == key {
        run_end(toks, j + 1, key)
    } else {
        j
    }
}

/// What a run of `toks[i..e]` becomes: when it reaches the threshold of its
/// word, the first token's lead and word followed by `...`, then the last
/// token's word and trail; otherwise the tokens themselves.
pub open spec fn run_output(toks: Seq<Seq<char>>, i: int, e: int, key: Seq<char>) -> Seq<
    Seq<char>,
> {
    let t = threshold_spec(key);
    if t is Some && e - i >= t->Some_0 {
        seq![
            affix_lead(toks[i]) + affix_core(toks[i]) + "..."@,
            affix_core(toks[e - 1]) + affix_trail(toks[e - 1]),
        ]
    } else {
        toks.subrange(i, e)
    }
}

/// The cleaned tokens from index `i` on.
pub open spec fn cleaned_from(toks: Seq<Seq<char>>, i: int) -> Seq<Seq<char>>
    decreases toks.len() - i,
{
    if i < 0 || i >= toks.len() {
        seq![]
    } else {
        let key = run_key(toks[i]);
        if key.len() == 0 {
            seq![toks[i]] + cleaned_from(toks, i + 1)
        } else {
            let e = run_end(toks, i + 1, key);
            if e <= i || e > toks.len() {
                seq![]
            } else {
                run_output(toks, i, e, key) + cleaned_from(toks, e)
            }
        }
    }
}

/// `text` with pathological runs of a repeated word (`we we we we we`)
/// collapsed to `we... we`, and white space normalized.
pub open spec fn clean_spec(text: Seq<char>) -> Seq<char> {
    collapse_ws(join(cleaned_from(words(text), 0), " "@))
}

proof fn lemma_run_end_bounds(toks: Seq<Seq<char>>, j: int, key: Seq<char>)
    requires
        0 <= j <= toks.len(),
    ensures
        j <= run_end(toks, j, key) <= toks.len(),
    decreases toks.len() - j,
{
    if j < toks.len() && run_key(toks[j]) == key {
        lemma_run_end_bounds(toks, j + 1, key);
    }
}

fn copy_chars(v: &[char]) -> (r: Vec<char>)
    ensures
        r@ == v@,
{
    slice_chars(v, 0, v.len())
}

fn key_of(token: &[char]) -> (r: (Vec<char>, Vec<char>, Vec<char>, String))
    ensures
        r.0@ == affix_lead(token@),
        r.1@ == affix_core(token@),
        r.2@ == affix_trail(token@),
        r.3@ == run_key(token@),
{
    let (lead, core, trail) = split_token_affixes(token);
    let core_string = string_of(core.as_slice());
    let key = to_lowercase(core_string.as_str());
    (lead, core, trail, key)
}

/// Collapses pathological runs of a repeated word (see `clean_spec`).
pub fn clean_pathological_repeated_words(text: &str) -> (r: String)
    ensures
        r@ == clean_spec(text@),
{
    let chars = chars_of(text);
    let tokens = split_ws(chars.as_slice());
    let ghost toks = views(tokens@);
    let n = tokens.len();
    let mut output: Vec<Vec<char>> = Vec::new();
    let mut index: usize = 0;
    while index < n
        invariant
            index <= n,
            n == tokens.len(),
            toks == views(tokens@),
            views(output@) + cleaned_from(toks, index as int) == cleaned_from(toks, 0),
        decreases n - index,
    {
        let (first_lead, first_core, _first_trail, key) = key_of(tokens[index].as_slice());
        assert(toks[index as int] == tokens@[index as int]@);
        if key.as_str().unicode_len() == 0 {
            let ghost before = views(output@);
            output.push(copy_chars(tokens[index].as_slice()));
            assert(views(output@) == before.push(toks[index as int]));
            assert(cleaned_from(toks, index as int) == seq![toks[index as int]] + cleaned_from(
                toks,
                index + 1,
            ));
            assert(before + cleaned_from(toks, index as int) == views(output@) + cleaned_from(
                toks,
                index + 1,
            ));
            index = index + 1;
            continue;
        }
        let mut end = index + 1;
        let mut running = true;
        while running && end < n
            invariant
                index < end <= n,
                n == tokens.len(),
                toks == views(tokens@),
                key@ == run_key(toks[index as int]),
                run_end(toks, index + 1, key@) == run_end(toks, end as int, key@),
                !running ==> end < n && run_key(toks[end as int]) != key@,
            decreases n - end + (if running { 1int } else { 0int }),
        {
            let (_l, _c, _t, candidate) = key_of(tokens[end].as_slice());
            assert(toks[end as int] == tokens@[end as int]@);
            if candidate != key {
                running = false;
            } else {
                end = end + 1;
            }
        }
        proof {
            lemma_run_end_bounds(toks, index + 1, key@);
        }
        let ghost e = end as int;
        assert(run_end(toks, index + 1, key@) == e);
        let key_chars = chars_of(key.as_str());
        let threshold = threshold_of(key_chars.as_slice());
        let ghost before = views(output@);
        let run_len = end - index;
        if threshold.is_some() && run_len >= threshold.unwrap() {
            let mut first = first_lead;
            let mut k: usize = 0;
            let ghost lead_view = first@;
            while k < first_core.len()
                invariant
                    k <= first_core.len(),
                    first@ == lead_view + first_core@.take(k as int),
                decreases first_core.len() - k,
            {
                first.push(first_core[k]);
                k = k + 1;
                assert(first_core@.take(k as int) == first_core@.take(k - 1).push(
                    first_core@[k - 1],
                ));
            }
            assert(first_core@.take(first_core.len() as int) == first_core@);
            let ghost with_core = first@;
            first.push('.');
            first.push('.');
            first.push('.');
            proof {
                reveal_strlit("...");
                assert(first@ == with_core + "..."@);
            }
            let (_ll, last_core, last_trail, _lk) = key_of(tokens[end - 1].as_slice());
            assert(toks[end - 1] == tokens@[end - 1]@);
            let mut last = last_core;
            let mut m: usize = 0;
            let ghost core_view = last@;
            while m < last_trail.len()
                invariant
                    m <= last_trail.len(),
                    last@ == core_view + last_trail@.take(m as int),
                decreases last_trail.len() - m,
            {
                last.push(last_trail[m]);
                m = m + 1;
                assert(last_trail@.take(m as int) == last_trail@.take(m - 1).push(
                    last_trail@[m - 1],
                ));
            }
            assert(last_trail@.take(last_trail.len() as int) == last_trail@);
            output.push(first);
            output.push(last);
            assert(views(output@) == before + run_output(toks, index as int, e, key@));
        } else {
            let mut k = index;
            while k < end
                invariant
                    index <= k <= end,
                    end <= n,
                    n == tokens.len(),
                    toks == views(tokens@),
                    views(output@) == before + toks.subrange(index as int, k as int),
                decreases end - k,
            {
                let ghost prev = views(output@);
                output.push(copy_chars(tokens[k].as_slice()));
                assert(views(output@) == prev.push(toks[k as int]));
                k = k + 1;
                assert(toks.subrange(index as int, k as int) == toks.subrange(
                    index as int,
                    k - 1,
                ).push(toks[k - 1]));
            }
            assert(views(output@) == before + run_output(toks, index as int, e, key@));
        }
        assert(cleaned_from(toks, index as int) == run_output(toks, index as int, e, key@)
            + cleaned_from(toks, e));
        assert(views(output@) + cleaned_from(toks, e) == cleaned_from(toks, 0));
        index = end;
    }
    let joined = join_chars(&output, " ");
    proof {
        reveal_strlit(" ");
    }
    collapse_whitespace(joined.as_str())
}

} // verus!

verus! {

// ---------------------------------------------------------------------------
// Rendering
// ---------------------------------------------------------------------------

/// The normalized label of a segment's speaker; blank labels count as none.
pub open spec fn speaker_label_spec(speaker: Option<Seq<char>>) -> Option<Seq<char>> {
    match speaker {
        Some(s) => if trim(s).len() > 0 {
            Some(normalize_label_spec(trim(s), "UNKNOWN"@))
        } else {
            None
        },
        None => None,
    }
}

pub open spec fn opt_view(o: Option<String>) -> Option<Seq<char>> {
    match o {
        Some(s) => Some(s@),
        None => None,
    }
}

/// Normalized speaker label, if the segment has a non-blank one.
pub fn normalized_speaker_label(speaker: &Option<String>) -> (r: Option<String>)
    ensures
        opt_view(r) == speaker_label_spec(opt_view(*speaker)),
{
    match speaker {
        Some(s) => {
            let t = trim_str(s.as_str());
            if t.len() > 0 {
                let ts = string_of(t.as_slice());
                proof {
                    crate::text::lemma_trim_idempotent(s@);
                }
                Some(normalize_speaker_label(ts.as_str(), "UNKNOWN"))
            } else {
                None
            }
        },
        None => None,
    }
}

/// A segment's text, trimmed, after its speaker label when asked for and
/// present.
pub open spec fn display_text_spec(seg: SegmentSpec, include_speaker: bool) -> Seq<char> {
    let text = trim(seg.text);
    if !include_speaker {
        text
    } else {
        match speaker_label_spec(seg.speaker) {
            Some(label) => label + ": "@ + text,
            None => text,
        }
    }
}

pub fn segment_display_text(segment: &TranscriptSegment, include_speaker: bool) -> (r: String)
    ensures
        r@ == display_text_spec(segment@, include_speaker),
{
    let text = trim_str(segment.text.as_str());
    if !include_speaker {
        return string_of(text.as_slice());
    }
    match normalized_speaker_label(&segment.speaker) {
        Some(label) => {
            let mut s = label;
            append_str(&mut s, ": ");
            append_chars(&mut s, text.as_slice());
            s
        },
        None => string_of(text.as_slice()),
    }
}

/// State of the speaker-line renderer: the finished lines and the turn
/// being collected.
pub struct SpeakerLines {
    pub lines: Seq<Seq<char>>,
    pub speaker: Option<Seq<char>>,
    pub start: u64,
    pub parts: Seq<Seq<char>>,
}

pub open spec fn speaker_lines_initial() -> SpeakerLines {
    SpeakerLines { lines: seq![], speaker: None, start: 0, parts: seq![] }
}

/// One rendered turn: its text after the speaker label, with the start time
/// in front when time stamps are asked for.
pub open spec fn turn_line(
    format: crate::types::SpeakersFormat,
    start: u64,
    speaker: Option<Seq<char>>,
    text: Seq<char>,
) -> Seq<char> {
    let prefix = match speaker {
        Some(sp) => sp + ": "@,
        None => Seq::<char>::empty(),
    };
    match format {
        crate::types::SpeakersFormat::Plain => prefix + text,
        crate::types::SpeakersFormat::Timestamped => hhmmss_spec(whole_seconds_spec(start))
            + " - "@ + prefix + text,
    }
}

/// Ends the current turn: its parts become a line unless they are blank.
pub open spec fn flush_spec(st: SpeakerLines, format: crate::types::SpeakersFormat) -> SpeakerLines {
    let text = trim(join(st.parts, " "@));
    if text.len() == 0 {
        SpeakerLines { speaker: None, parts: seq![], ..st }
    } else {
        SpeakerLines {
            lines: st.lines.push(turn_line(format, st.start, st.speaker, text)),
            speaker: None,
            parts: seq![],
            start: st.start,
        }
    }
}

/// Adds one segment: blank ones are skipped; with merging, a segment of the
/// speaker of the open turn joins it; otherwise it starts a new turn, stamped
/// with its own start.
pub open spec fn speaker_step(
    st: SpeakerLines,
    seg: SegmentSpec,
    format: crate::types::SpeakersFormat,
    merge: bool,
) -> SpeakerLines {
    let text = trim(seg.text);
    if text.len() == 0 {
        st
    } else {
        let sp = speaker_label_spec(seg.speaker);
        if merge && st.parts.len() > 0 && st.speaker == sp {
            SpeakerLines { parts: st.parts.push(text), ..st }
        } else {
            let f = flush_spec(st, format);
            SpeakerLines { lines: f.lines, speaker: sp, start: seg.start, parts: seq![text] }
        }
    }
}

pub open spec fn speaker_fold(
    segs: Seq<SegmentSpec>,
    format: crate::types::SpeakersFormat,
    merge: bool,
) -> SpeakerLines
    decreases segs.len(),
{
    if segs.len() == 0 {
        speaker_lines_initial()
    } else {
        speaker_step(speaker_fold(segs.drop_last(), format, merge), segs.last(), format, merge)
    }
}

/// The speaker-aware lines of a transcript.
pub open spec fn speaker_lines_spec(
    segs: Seq<SegmentSpec>,
    format: crate::types::SpeakersFormat,
    merge: bool,
) -> Seq<Seq<char>> {
    flush_spec(speaker_fold(segs, format, merge), format).lines
}

struct SpeakerLinesExec {
    lines: Vec<String>,
    speaker: Option<String>,
    start: Binary64,
    parts: Vec<Vec<char>>,
}

impl SpeakerLinesExec {
    spec fn view(&self) -> SpeakerLines {
        SpeakerLines {
            lines: crate::text::string_views(self.lines@),
            speaker: opt_view(self.speaker),
            start: self.start.bits,
            parts: views(self.parts@),
        }
    }
}

fn flush_exec(st: &mut SpeakerLinesExec, format: crate::types::SpeakersFormat)
    ensures
        final(st)@ == flush_spec(old(st)@, format),
{
    let joined = join_chars(&st.parts, " ");
    let text = trim_str(joined.as_str());
    st.parts = Vec::new();
    assert(views(st.parts@) =~= Seq::<Seq<char>>::empty());
    if text.len() == 0 {
        st.speaker = None;
        return;
    }
    let ghost sp_view = opt_view(st.speaker);
    let mut line = String::new();
    if format == crate::types::SpeakersFormat::Timestamped {
        line = format_hhmmss(st.start);
        append_str(&mut line, " - ");
    }
    let ghost before_prefix = line@;
    match &st.speaker {
        Some(sp) => {
            append_str(&mut line, sp.as_str());
            append_str(&mut line, ": ");
        },
        None => {},
    }
    append_chars(&mut line, text.as_slice());
    assert(line@ =~= turn_line(format, st.start.bits, sp_view, text@));
    let ghost old_lines = crate::text::string_views(st.lines@);
    st.lines.push(line);
    assert(crate::text::string_views(st.lines@) == old_lines.push(line@));
    st.speaker = None;
}

/// Renders transcript segments as speaker turns, one line per turn.
pub fn render_speaker_lines(
    segments: &Vec<TranscriptSegment>,
    speakers_format: crate::types::SpeakersFormat,
    merge_consecutive: bool,
) -> (r: Vec<String>)
    ensures
        crate::text::string_views(r@) == speaker_lines_spec(
            crate::types::segments_view(segments@),
            speakers_format,
            merge_consecutive,
        ),
{
    let ghost segs = crate::types::segments_view(segments@);
    let mut st = SpeakerLinesExec {
        lines: Vec::new(),
        speaker: None,
        start: Binary64 { bits: 0 },
        parts: Vec::new(),
    };
    assert(views(st.parts@) =~= Seq::<Seq<char>>::empty());
    assert(crate::text::string_views(st.lines@) =~= Seq::<Seq<char>>::empty());
    assert(st@ == speaker_lines_initial());
    let mut i: usize = 0;
    while i < segments.len()
        invariant
            i <= segments.len(),
            segs == crate::types::segments_view(segments@),
            st@ == speaker_fold(segs.take(i as int), speakers_format, merge_consecutive),
        decreases segments.len() - i,
    {
        let seg = &segments[i];
        assert(segs.take(i + 1).drop_last() == segs.take(i as int));
        assert(segs.take(i + 1).last() == seg@);
        let text = trim_str(seg.text.as_str());
        if text.len() > 0 {
            let sp = normalized_speaker_label(&seg.speaker);
            let same = match (&st.speaker, &sp) {
                (Some(a), Some(b)) => *a == *b,
                (None, None) => true,
                _ => false,
            };
            if merge_consecutive && st.parts.len() > 0 && same {
                let ghost prev = views(st.parts@);
                st.parts.push(text);
                assert(views(st.parts@) == prev.push(trim(seg@.text)));
            } else {
                flush_exec(&mut st, speakers_format);
                st.start = seg.start_s;
                st.speaker = sp;
                let mut parts: Vec<Vec<char>> = Vec::new();
                parts.push(text);
                st.parts = parts;
                assert(views(st.parts@) == seq![trim(seg@.text)]);
            }
        }
        i = i + 1;
    }
    assert(segs.take(segments.len() as int) == segs);
    flush_exec(&mut st, speakers_format);
    st.lines
}

} // verus!

verus! {

/// `HH:MM:SS - text` for each segment with non-blank text.
pub open spec fn timestamped_lines_spec(segs: Seq<SegmentSpec>) -> Seq<Seq<char>>
    decreases segs.len(),
{
    if segs.len() == 0 {
        seq![]
    } else {
        let prev = timestamped_lines_spec(segs.drop_last());
        let text = trim(segs.last().text);
        if text.len() == 0 {
            prev
        } else {
            prev.push(hhmmss_spec(whole_seconds_spec(segs.last().start)) + " - "@ + text)
        }
    }
}

pub fn render_timestamped_text_lines(segments: &Vec<TranscriptSegment>) -> (r: Vec<String>)
    ensures
        crate::text::string_views(r@) == timestamped_lines_spec(
            crate::types::segments_view(segments@),
        ),
{
    let ghost segs = crate::types::segments_view(segments@);
    let mut lines: Vec<String> = Vec::new();
    let mut i: usize = 0;
    assert(crate::text::string_views(lines@) =~= Seq::<Seq<char>>::empty());
    while i < segments.len()
        invariant
            i <= segments.len(),
            segs == crate::types::segments_view(segments@),
            crate::text::string_views(lines@) == timestamped_lines_spec(segs.take(i as int)),
        decreases segments.len() - i,
    {
        let seg = &segments[i];
        assert(segs.take(i + 1).drop_last() == segs.take(i as int));
        assert(segs.take(i + 1).last() == seg@);
        let text = trim_str(seg.text.as_str());
        if text.len() > 0 {
            let mut line = format_hhmmss(seg.start_s);
            append_str(&mut line, " - ");
            append_chars(&mut line, text.as_slice());
            let ghost prev = crate::text::string_views(lines@);
            lines.push(line);
            assert(crate::text::string_views(lines@) == prev.push(line@));
        }
        i = i + 1;
    }
    assert(segs.take(segments.len() as int) == segs);
    lines
}

/// Whether a segment becomes a subtitle cue: it has a positive duration and
/// non-blank text.
pub open spec fn cue_kept(seg: SegmentSpec) -> bool {
    ieee_lt(seg.start, seg.end) && trim(seg.text).len() > 0
}

/// One cue's timing line and text.
pub open spec fn cue_body(seg: SegmentSpec, sep: char) -> Seq<char> {
    subtitle_timestamp_spec(millis_spec(seg.start), sep) + " --> "@ + subtitle_timestamp_spec(
        millis_spec(seg.end),
        sep,
    ) + "\n"@ + display_text_spec(seg, true)
}

/// The SubRip cues, numbered from 1.
pub open spec fn srt_cues(segs: Seq<SegmentSpec>) -> Seq<Seq<char>>
    decreases segs.len(),
{
    if segs.len() == 0 {
        seq![]
    } else {
        let prev = srt_cues(segs.drop_last());
        if cue_kept(segs.last()) {
            prev.push(decimal(prev.len() + 1) + "\n"@ + cue_body(segs.last(), ','))
        } else {
            prev
        }
    }
}

/// The WebVTT cues.
pub open spec fn vtt_cues(segs: Seq<SegmentSpec>) -> Seq<Seq<char>>
    decreases segs.len(),
{
    if segs.len() == 0 {
        seq![]
    } else {
        let prev = vtt_cues(segs.drop_last());
        if cue_kept(segs.last()) {
            prev.push(cue_body(segs.last(), '.'))
        } else {
            prev
        }
    }
}

/// Whether a segment becomes a subtitle cue, stated on its own: it starts
/// before it ends and its text is not blank.
pub open spec fn shown_as_cue(seg: SegmentSpec) -> bool {
    ieee_lt(seg.start, seg.end) && trim(seg.text).len() > 0
}

/// A cue's timing line, `start --> end` with `sep` before the milliseconds,
/// then its text.
pub open spec fn timed_cue_text(seg: SegmentSpec, sep: char) -> Seq<char> {
    subtitle_timestamp_spec(millis_spec(seg.start), sep) + " --> "@ + subtitle_timestamp_spec(
        millis_spec(seg.end),
        sep,
    ) + "\n"@ + display_text_spec(seg, true)
}

/// The subtitle cues are the segments that start before they end and have
/// text, in order, one cue each: in SubRip the `k`-th is numbered `k + 1`
/// and its time stamps use `,`, in WebVTT they are not numbered and use
/// `.`.
pub proof fn lemma_subtitle_cues_numbered(segs: Seq<SegmentSpec>)
    ensures
        ({
            let kept = segs.filter(|s: SegmentSpec| shown_as_cue(s));
            &&& srt_cues(segs).len() == kept.len()
            &&& vtt_cues(segs).len() == kept.len()
            &&& forall|k: int| 0 <= k < kept.len() ==> #[trigger] srt_cues(segs)[k] == decimal(
                (k + 1) as nat,
            ) + "\n"@ + timed_cue_text(kept[k], ',')
            &&& forall|k: int| 0 <= k < kept.len() ==> #[trigger] vtt_cues(segs)[k]
                == timed_cue_text(kept[k], '.')
        }),
    decreases segs.len(),
{
    reveal(Seq::filter);
    if segs.len() > 0 {
        lemma_subtitle_cues_numbered(segs.drop_last());
        let prev = segs.drop_last().filter(|s: SegmentSpec| shown_as_cue(s));
        let kept = segs.filter(|s: SegmentSpec| shown_as_cue(s));
        if shown_as_cue(segs.last()) {
            assert(kept == prev.push(segs.last()));
            assert forall|k: int| 0 <= k < kept.len() implies #[trigger] srt_cues(segs)[k]
                == decimal((k + 1) as nat) + "\n"@ + timed_cue_text(kept[k], ',') by {
                if k < prev.len() {
                    assert(srt_cues(segs)[k] == srt_cues(segs.drop_last())[k]);
                }
            }
            assert forall|k: int| 0 <= k < kept.len() implies #[trigger] vtt_cues(segs)[k]
                == timed_cue_text(kept[k], '.') by {
                if k < prev.len() {
                    assert(vtt_cues(segs)[k] == vtt_cues(segs.drop_last())[k]);
                }
            }
        } else {
            assert(kept == prev);
        }
    } else {
        assert(segs.filter(|s: SegmentSpec| shown_as_cue(s)) =~= Seq::<SegmentSpec>::empty());
    }
}

pub open spec fn srt_spec(segs: Seq<SegmentSpec>) -> Seq<char> {
    join(srt_cues(segs), "\n\n"@)
}

pub open spec fn vtt_spec(segs: Seq<SegmentSpec>) -> Seq<char> {
    let body = join(vtt_cues(segs), "\n\n"@);
    if body.len() == 0 {
        "WEBVTT"@
    } else {
        "WEBVTT\n\n"@ + body
    }
}

proof fn lemma_srt_cues_len(segs: Seq<SegmentSpec>)
    ensures
        srt_cues(segs).len() <= segs.len(),
    decreases segs.len(),
{
    if segs.len() > 0 {
        lemma_srt_cues_len(segs.drop_last());
    }
}

fn cue_body_exec(seg: &TranscriptSegment, sep: char) -> (r: String)
    ensures
        r@ == cue_body(seg@, sep),
{
    let mut s = format_subtitle_timestamp(seg.start_s, sep);
    append_str(&mut s, " --> ");
    let end = format_subtitle_timestamp(seg.end_s, sep);
    append_str(&mut s, end.as_str());
    append_str(&mut s, "\n");
    let text = segment_display_text(seg, true);
    append_str(&mut s, text.as_str());
    s
}

fn cues(segments: &Vec<TranscriptSegment>, numbered: bool) -> (r: Vec<String>)
    ensures
        numbered ==> crate::text::string_views(r@) == srt_cues(
            crate::types::segments_view(segments@),
        ),
        !numbered ==> crate::text::string_views(r@) == vtt_cues(
            crate::types::segments_view(segments@),
        ),
{
    let ghost segs = crate::types::segments_view(segments@);
    let mut out: Vec<String> = Vec::new();
    let mut i: usize = 0;
    assert(crate::text::string_views(out@) =~= Seq::<Seq<char>>::empty());
    while i < segments.len()
        invariant
            i <= segments.len(),
            segs == crate::types::segments_view(segments@),
            out.len() <= i,
            numbered ==> crate::text::string_views(out@) == srt_cues(segs.take(i as int)),
            !numbered ==> crate::text::string_views(out@) == vtt_cues(segs.take(i as int)),
        decreases segments.len() - i,
    {
        let seg = &segments[i];
        assert(segs.take(i + 1).drop_last() == segs.take(i as int));
        assert(segs.take(i + 1).last() == seg@);
        let text = trim_str(seg.text.as_str());
        if seg.start_s.lt(seg.end_s) && text.len() > 0 {
            let ghost prev = crate::text::string_views(out@);
            if numbered {
                let mut cue = crate::text::decimal_string((out.len() + 1) as u64);
                append_str(&mut cue, "\n");
                let body = cue_body_exec(seg, ',');
                append_str(&mut cue, body.as_str());
                out.push(cue);
            } else {
                out.push(cue_body_exec(seg, '.'));
            }
            assert(crate::text::string_views(out@) == prev.push(out@.last()@));
        }
        i = i + 1;
    }
    assert(segs.take(segments.len() as int) == segs);
    out
}

/// SubRip subtitles: numbered cues separated by blank lines.
pub fn render_srt(segments: &Vec<TranscriptSegment>) -> (r: String)
    ensures
        r@ == srt_spec(crate::types::segments_view(segments@)),
{
    let c = cues(segments, true);
    crate::text::join_strings(&c, "\n\n")
}

/// WebVTT subtitles: the `WEBVTT` header, then cues separated by blank lines.
pub fn render_vtt(segments: &Vec<TranscriptSegment>) -> (r: String)
    ensures
        r@ == vtt_spec(crate::types::segments_view(segments@)),
{
    let c = cues(segments, false);
    let body = crate::text::join_strings(&c, "\n\n");
    if body.as_str().unicode_len() == 0 {
        String::from_str("WEBVTT")
    } else {
        let mut s = String::from_str("WEBVTT\n\n");
        append_str(&mut s, body.as_str());
        s
    }
}

} // verus!

verus! {

/// The non-blank segment texts, trimmed.
pub open spec fn plain_lines(segs: Seq<SegmentSpec>) -> Seq<Seq<char>>
    decreases segs.len(),
{
    if segs.len() == 0 {
        seq![]
    } else {
        let prev = plain_lines(segs.drop_last());
        let text = trim(segs.last().text);
        if text.len() == 0 {
            prev
        } else {
            prev.push(text)
        }
    }
}

/// One line per non-blank segment; without segments, the whole text.
pub open spec fn plain_text_spec(text: Seq<char>, segs: Option<Seq<SegmentSpec>>) -> Seq<char> {
    match segs {
        Some(s) => join(plain_lines(s), "\n"@),
        None => trim(text),
    }
}

/// `text` with every newline replaced by a space.
pub open spec fn newlines_to_spaces(text: Seq<char>) -> Seq<char> {
    text.map_values(|c: char| if c == '\n' { ' ' } else { c })
}

/// The whole text on one line.
pub open spec fn compact_text_spec(text: Seq<char>) -> Seq<char> {
    trim(newlines_to_spaces(trim(text)))
}

pub open spec fn opt_segments_view(o: Option<Vec<TranscriptSegment>>) -> Option<Seq<SegmentSpec>> {
    match o {
        Some(v) => Some(crate::types::segments_view(v@)),
        None => None,
    }
}

fn plain_lines_exec(segments: &Vec<TranscriptSegment>) -> (r: Vec<Vec<char>>)
    ensures
        views(r@) == plain_lines(crate::types::segments_view(segments@)),
{
    let ghost segs = crate::types::segments_view(segments@);
    let mut out: Vec<Vec<char>> = Vec::new();
    let mut i: usize = 0;
    assert(views(out@) =~= Seq::<Seq<char>>::empty());
    while i < segments.len()
        invariant
            i <= segments.len(),
            segs == crate::types::segments_view(segments@),
            views(out@) == plain_lines(segs.take(i as int)),
        decreases segments.len() - i,
    {
        assert(segs.take(i + 1).drop_last() == segs.take(i as int));
        assert(segs.take(i + 1).last() == segments@[i as int]@);
        let text = trim_str(segments[i].text.as_str());
        if text.len() > 0 {
            let ghost prev = views(out@);
            out.push(text);
            assert(views(out@) == prev.push(out@.last()@));
        }
        i = i + 1;
    }
    assert(segs.take(segments.len() as int) == segs);
    out
}

/// Transcript text, one line per segment.
pub fn render_plain_text(text: &String, segments: &Option<Vec<TranscriptSegment>>) -> (r: String)
    ensures
        r@ == plain_text_spec(text@, opt_segments_view(*segments)),
{
    match segments {
        Some(segs) => {
            let lines = plain_lines_exec(segs);
            join_chars(&lines, "\n")
        },
        None => {
            let t = trim_str(text.as_str());
            string_of(t.as_slice())
        },
    }
}

/// Transcript text flattened to one line.
pub fn render_compact_text(text: &String) -> (r: String)
    ensures
        r@ == compact_text_spec(text@),
{
    let t = trim_str(text.as_str());
    let mut u: Vec<char> = Vec::new();
    let mut i: usize = 0;
    while i < t.len()
        invariant
            i <= t.len(),
            u@ == newlines_to_spaces(t@.take(i as int)),
        decreases t.len() - i,
    {
        let c = t[i];
        u.push(if c == '\n' {
            ' '
        } else {
            c
        });
        i = i + 1;
        assert(newlines_to_spaces(t@.take(i as int)) == newlines_to_spaces(t@.take(i - 1)).push(
            if c == '\n' {
                ' '
            } else {
                c
            },
        ));
    }
    assert(t@.take(t.len() as int) == t@);
    let r = trim_chars(u.as_slice());
    string_of(r.as_slice())
}

/// A segment with its text cleaned.
pub fn cleaned_transcript_segment(segment: &TranscriptSegment) -> (r: TranscriptSegment)
    ensures
        r@ == (SegmentSpec { text: clean_spec(segment@.text), ..segment@ }),
{
    TranscriptSegment {
        start_s: segment.start_s,
        end_s: segment.end_s,
        text: clean_pathological_repeated_words(segment.text.as_str()),
        speaker: match &segment.speaker {
            Some(s) => Some(s.clone()),
            None => None,
        },
    }
}

/// A chunk record with its text cleaned.
pub fn cleaned_benchmark_chunk(chunk: &crate::types::BenchmarkChunk) -> (r: crate::types::BenchmarkChunk)
    ensures
        r@ == (crate::types::ChunkSpec { text: clean_spec(chunk@.text), ..chunk@ }),
{
    crate::types::BenchmarkChunk {
        index: chunk.index,
        start_s: chunk.start_s,
        end_s: chunk.end_s,
        audio_seconds: chunk.audio_seconds,
        transcribe_seconds: chunk.transcribe_seconds,
        text: clean_pathological_repeated_words(chunk.text.as_str()),
    }
}

/// Segments with their texts cleaned.
pub open spec fn cleaned_segments_spec(segs: Seq<SegmentSpec>) -> Seq<SegmentSpec> {
    segs.map_values(|s: SegmentSpec| SegmentSpec { text: clean_spec(s.text), ..s })
}

/// Chunk records with their texts cleaned.
pub open spec fn cleaned_chunks_spec(chunks: Seq<crate::types::ChunkSpec>) -> Seq<crate::types::ChunkSpec> {
    chunks.map_values(|c: crate::types::ChunkSpec| crate::types::ChunkSpec { text: clean_spec(c.text), ..c })
}

fn cleaned_segments(segments: &Vec<TranscriptSegment>) -> (r: Vec<TranscriptSegment>)
    ensures
        crate::types::segments_view(r@) == cleaned_segments_spec(crate::types::segments_view(segments@)),
{
    let mut out: Vec<TranscriptSegment> = Vec::new();
    let mut i: usize = 0;
    while i < segments.len()
        invariant
            i <= segments.len(),
            crate::types::segments_view(out@) == cleaned_segments_spec(
                crate::types::segments_view(segments@),
            ).take(i as int),
        decreases segments.len() - i,
    {
        let ghost prev = crate::types::segments_view(out@);
        out.push(cleaned_transcript_segment(&segments[i]));
        assert(crate::types::segments_view(out@) == prev.push(out@.last()@));
        i = i + 1;
        assert(cleaned_segments_spec(crate::types::segments_view(segments@)).take(i as int)
            == cleaned_segments_spec(crate::types::segments_view(segments@)).take(i - 1).push(
            out@.last()@,
        ));
    }
    assert(cleaned_segments_spec(crate::types::segments_view(segments@)).take(
        segments.len() as int,
    ) == cleaned_segments_spec(crate::types::segments_view(segments@)));
    out
}

fn cleaned_chunks(chunks: &Vec<crate::types::BenchmarkChunk>) -> (r: Vec<crate::types::BenchmarkChunk>)
    ensures
        crate::types::chunks_view(r@) == cleaned_chunks_spec(crate::types::chunks_view(chunks@)),
{
    let mut out: Vec<crate::types::BenchmarkChunk> = Vec::new();
    let mut i: usize = 0;
    while i < chunks.len()
        invariant
            i <= chunks.len(),
            crate::types::chunks_view(out@) == cleaned_chunks_spec(
                crate::types::chunks_view(chunks@),
            ).take(i as int),
        decreases chunks.len() - i,
    {
        let ghost prev = crate::types::chunks_view(out@);
        out.push(cleaned_benchmark_chunk(&chunks[i]));
        assert(crate::types::chunks_view(out@) == prev.push(out@.last()@));
        i = i + 1;
        assert(cleaned_chunks_spec(crate::types::chunks_view(chunks@)).take(i as int)
            == cleaned_chunks_spec(crate::types::chunks_view(chunks@)).take(i - 1).push(
            out@.last()@,
        ));
    }
    assert(cleaned_chunks_spec(crate::types::chunks_view(chunks@)).take(chunks.len() as int)
        == cleaned_chunks_spec(crate::types::chunks_view(chunks@)));
    out
}

} // verus!

verus! {

/// A report with its transcript text, chunk texts and segment texts
/// cleaned; every other field is kept.
pub open spec fn cleaned_result_spec(r: crate::types::ResultSpec) -> crate::types::ResultSpec {
    crate::types::ResultSpec {
        text: clean_spec(r.text),
        chunks: cleaned_chunks_spec(r.chunks),
        segments: match r.segments {
            Some(s) => Some(cleaned_segments_spec(s)),
            None => None,
        },
        ..r
    }
}

fn copy_metadata(m: &Option<crate::diarization::SpeakerDiarizationMetadata>) -> (r: Option<
    crate::diarization::SpeakerDiarizationMetadata,
>)
    ensures
        match (r, *m) {
            (Some(a), Some(b)) => a@ == b@,
            (None, None) => true,
            _ => false,
        },
{
    match m {
        Some(x) => Some(x.copy()),
        None => None,
    }
}

/// The report with every text cleaned (see `cleaned_result_spec`).
pub fn cleaned_benchmark_result(result: &crate::types::BenchmarkResult) -> (r: crate::types::BenchmarkResult)
    ensures
        r@ == cleaned_result_spec(result@),
{
    crate::types::BenchmarkResult {
        input_source: result.input_source.clone(),
        model_dir: result.model_dir.clone(),
        audio_path: result.audio_path.clone(),
        prepared_audio_path: result.prepared_audio_path.clone(),
        used_ffmpeg_normalization: result.used_ffmpeg_normalization,
        used_local_model: result.used_local_model,
        transcript_source: result.transcript_source.clone(),
        audio_seconds: result.audio_seconds,
        load_seconds: result.load_seconds,
        transcribe_seconds: result.transcribe_seconds,
        total_inside_seconds: result.total_inside_seconds,
        seconds_per_audio_second: result.seconds_per_audio_second,
        realtime_speedup: result.realtime_speedup,
        text: clean_pathological_repeated_words(result.text.as_str()),
        chunk_seconds: result.chunk_seconds,
        chunk_overlap_seconds: result.chunk_overlap_seconds,
        chunk_count: result.chunk_count,
        chunks: cleaned_chunks(&result.chunks),
        segments: match &result.segments {
            Some(s) => Some(cleaned_segments(s)),
            None => None,
        },
        speaker_diarization: copy_metadata(&result.speaker_diarization),
    }
}

fn copy_segments(segments: &Vec<TranscriptSegment>) -> (r: Vec<TranscriptSegment>)
    ensures
        crate::types::segments_view(r@) == crate::types::segments_view(segments@),
{
    let mut out: Vec<TranscriptSegment> = Vec::new();
    let mut i: usize = 0;
    while i < segments.len()
        invariant
            i <= segments.len(),
            crate::types::segments_view(out@) == crate::types::segments_view(segments@).take(
                i as int,
            ),
        decreases segments.len() - i,
    {
        let s = &segments[i];
        let ghost prev = crate::types::segments_view(out@);
        out.push(
            TranscriptSegment {
                start_s: s.start_s,
                end_s: s.end_s,
                text: s.text.clone(),
                speaker: match &s.speaker {
                    Some(x) => Some(x.clone()),
                    None => None,
                },
            },
        );
        assert(crate::types::segments_view(out@) == prev.push(out@.last()@));
        i = i + 1;
        assert(crate::types::segments_view(segments@).take(i as int)
            == crate::types::segments_view(segments@).take(i - 1).push(segments@[i - 1]@));
    }
    assert(crate::types::segments_view(segments@).take(segments.len() as int)
        == crate::types::segments_view(segments@));
    out
}

fn copy_chunks(chunks: &Vec<crate::types::BenchmarkChunk>) -> (r: Vec<crate::types::BenchmarkChunk>)
    ensures
        crate::types::chunks_view(r@) == crate::types::chunks_view(chunks@),
{
    let mut out: Vec<crate::types::BenchmarkChunk> = Vec::new();
    let mut i: usize = 0;
    while i < chunks.len()
        invariant
            i <= chunks.len(),
            crate::types::chunks_view(out@) == crate::types::chunks_view(chunks@).take(i as int),
        decreases chunks.len() - i,
    {
        let c = &chunks[i];
        let ghost prev = crate::types::chunks_view(out@);
        out.push(
            crate::types::BenchmarkChunk {
                index: c.index,
                start_s: c.start_s,
                end_s: c.end_s,
                audio_seconds: c.audio_seconds,
                transcribe_seconds: c.transcribe_seconds,
                text: c.text.clone(),
            },
        );
        assert(crate::types::chunks_view(out@) == prev.push(out@.last()@));
        i = i + 1;
        assert(crate::types::chunks_view(chunks@).take(i as int) == crate::types::chunks_view(
            chunks@,
        ).take(i - 1).push(chunks@[i - 1]@));
    }
    assert(crate::types::chunks_view(chunks@).take(chunks.len() as int)
        == crate::types::chunks_view(chunks@));
    out
}

/// A field-by-field copy of a report.
pub fn copy_result(result: &crate::types::BenchmarkResult) -> (r: crate::types::BenchmarkResult)
    ensures
        r@ == result@,
{
    crate::types::BenchmarkResult {
        input_source: result.input_source.clone(),
        model_dir: result.model_dir.clone(),
        audio_path: result.audio_path.clone(),
        prepared_audio_path: result.prepared_audio_path.clone(),
        used_ffmpeg_normalization: result.used_ffmpeg_normalization,
        used_local_model: result.used_local_model,
        transcript_source: result.transcript_source.clone(),
        audio_seconds: result.audio_seconds,
        load_seconds: result.load_seconds,
        transcribe_seconds: result.transcribe_seconds,
        total_inside_seconds: result.total_inside_seconds,
        seconds_per_audio_second: result.seconds_per_audio_second,
        realtime_speedup: result.realtime_speedup,
        text: result.text.clone(),
        chunk_seconds: result.chunk_seconds,
        chunk_overlap_seconds: result.chunk_overlap_seconds,
        chunk_count: result.chunk_count,
        chunks: copy_chunks(&result.chunks),
        segments: match &result.segments {
            Some(s) => Some(copy_segments(s)),
            None => None,
        },
        speaker_diarization: copy_metadata(&result.speaker_diarization),
    }
}

/// What `render_output` produces: rendered text, or the report to be written
/// as JSON.
pub enum RenderedOutput {
    Text(String),
    Json(crate::types::BenchmarkResult),
}

/// The report that output is made from: cleaned when cleaning is on.
pub open spec fn effective_result(r: crate::types::ResultSpec, clean: bool) -> crate::types::ResultSpec {
    if clean {
        cleaned_result_spec(r)
    } else {
        r
    }
}

pub open spec fn segments_or_empty(segs: Option<Seq<SegmentSpec>>) -> Seq<SegmentSpec> {
    match segs {
        Some(s) => s,
        None => seq![],
    }
}

/// The text rendering of a report in one of the textual formats.
pub open spec fn text_output_spec(r: crate::types::ResultSpec, format: crate::types::OutputFormat) -> Seq<char> {
    let segs = segments_or_empty(r.segments);
    match format {
        crate::types::OutputFormat::Speakers(f) => join(speaker_lines_spec(segs, f, true), "\n"@),
        crate::types::OutputFormat::Text(crate::types::TextFormat::Plain) => plain_text_spec(
            r.text,
            r.segments,
        ),
        crate::types::OutputFormat::Text(crate::types::TextFormat::Compact) => compact_text_spec(
            r.text,
        ),
        crate::types::OutputFormat::Text(crate::types::TextFormat::Timestamped) => join(
            timestamped_lines_spec(segs),
            "\n"@,
        ),
        crate::types::OutputFormat::Subtitle(crate::types::SubtitleFormat::Srt) => srt_spec(segs),
        crate::types::OutputFormat::Subtitle(crate::types::SubtitleFormat::Vtt) => vtt_spec(segs),
        crate::types::OutputFormat::Json => Seq::<char>::empty(),
    }
}

fn render_text_of(result: &crate::types::BenchmarkResult, format: crate::types::OutputFormat) -> (r: String)
    requires
        format != crate::types::OutputFormat::Json,
    ensures
        r@ == text_output_spec(result@, format),
{
    let empty: Vec<TranscriptSegment> = Vec::new();
    assert(crate::types::segments_view(empty@) =~= Seq::<SegmentSpec>::empty());
    let segs: &Vec<TranscriptSegment> = match &result.segments {
        Some(s) => s,
        None => &empty,
    };
    match format {
        crate::types::OutputFormat::Speakers(f) => {
            let lines = render_speaker_lines(segs, f, true);
            crate::text::join_strings(&lines, "\n")
        },
        crate::types::OutputFormat::Text(crate::types::TextFormat::Plain) => render_plain_text(
            &result.text,
            &result.segments,
        ),
        crate::types::OutputFormat::Text(crate::types::TextFormat::Compact) => render_compact_text(
            &result.text,
        ),
        crate::types::OutputFormat::Text(crate::types::TextFormat::Timestamped) => {
            let lines = render_timestamped_text_lines(segs);
            crate::text::join_strings(&lines, "\n")
        },
        crate::types::OutputFormat::Subtitle(crate::types::SubtitleFormat::Srt) => render_srt(segs),
        crate::types::OutputFormat::Subtitle(crate::types::SubtitleFormat::Vtt) => render_vtt(segs),
        crate::types::OutputFormat::Json => String::new(),
    }
}

/// Renders a report in the chosen format, cleaned when asked.  JSON is
/// handed back as the (cleaned) report for serialization.
pub fn render_output(
    result: &crate::types::BenchmarkResult,
    output_format: crate::types::OutputFormat,
    clean_output: bool,
) -> (r: RenderedOutput)
    ensures
        output_format == crate::types::OutputFormat::Json ==> (r matches RenderedOutput::Json(j)
            && j@ == effective_result(result@, clean_output)),
        output_format != crate::types::OutputFormat::Json ==> (r matches RenderedOutput::Text(t)
            && t@ == text_output_spec(effective_result(result@, clean_output), output_format)),
{
    let effective = if clean_output {
        cleaned_benchmark_result(result)
    } else {
        copy_result(result)
    };
    if output_format == crate::types::OutputFormat::Json {
        RenderedOutput::Json(effective)
    } else {
        RenderedOutput::Text(render_text_of(&effective, output_format))
    }
}

} // verus!

verus! {

fn push_utf8_line(out: &mut Vec<u8>, text: &str)
    ensures
        final(out)@ == old(out)@ + vstd::utf8::encode_utf8(text@ + "\n"@),
{
    let mut line = text.to_string();
    crate::text::append_str(&mut line, "\n");
    let bytes = line.as_str().as_bytes();
    let ghost start = out@;
    let mut i: usize = 0;
    while i < bytes.len()
        invariant
            i <= bytes.len(),
            out@ == start + bytes@.take(i as int),
        decreases bytes.len() - i,
    {
        out.push(bytes[i]);
        i = i + 1;
        assert(bytes@.take(i as int) == bytes@.take(i - 1).push(bytes@[i - 1]));
    }
    assert(bytes@.take(bytes.len() as int) == bytes@);
}

} // verus!

verus! {

/// Reports a written output file: its path on one line of standard output,
/// and the status message on one line of standard error (both UTF-8), so
/// that scripts can read the path alone.
pub fn emit_file_output_completion(
    stdout: &mut Vec<u8>,
    stderr: &mut Vec<u8>,
    output_path: &str,
    status_message: &str,
)
    ensures
        final(stdout)@ == old(stdout)@ + vstd::utf8::encode_utf8(output_path@ + "\n"@),
        final(stderr)@ == old(stderr)@ + vstd::utf8::encode_utf8(status_message@ + "\n"@),
{
    push_utf8_line(stdout, output_path);
    push_utf8_line(stderr, status_message);
}

} // verus!

verus! {

/// Whether the run of the word at `i` is long enough to be collapsed.
pub open spec fn run_reaches_threshold(toks: Seq<Seq<char>>, i: int) -> bool {
    let key = run_key(toks[i]);
    key.len() > 0 && threshold_spec(key) is Some && run_end(toks, i + 1, key) - i
        >= threshold_spec(key)->Some_0
}

/// No word repeats often enough in a row to be collapsed.
pub open spec fn ordinary_repetition(toks: Seq<Seq<char>>) -> bool {
    forall|i: int| 0 <= i < toks.len() ==> !#[trigger] run_reaches_threshold(toks, i)
}

proof fn lemma_cleaned_from_unchanged(toks: Seq<Seq<char>>, i: int)
    requires
        ordinary_repetition(toks),
        0 <= i <= toks.len(),
    ensures
        cleaned_from(toks, i) == toks.skip(i),
    decreases toks.len() - i,
{
    if i < toks.len() {
        let key = run_key(toks[i]);
        if key.len() == 0 {
            lemma_cleaned_from_unchanged(toks, i + 1);
            assert(toks.skip(i) =~= seq![toks[i]] + toks.skip(i + 1));
        } else {
            lemma_run_end_bounds(toks, i + 1, key);
            let e = run_end(toks, i + 1, key);
            assert(!run_reaches_threshold(toks, i));
            assert(run_output(toks, i, e, key) == toks.subrange(i, e));
            lemma_cleaned_from_unchanged(toks, e);
            assert(toks.skip(i) =~= toks.subrange(i, e) + toks.skip(e));
        }
    } else {
        assert(toks.skip(i) =~= Seq::<Seq<char>>::empty());
    }
}

proof fn lemma_lead_chars(s: Seq<char>)
    ensures
        forall|j: int| 0 <= j < lead_len(s) ==> !is_core_char(#[trigger] s[j]),
        lead_len(s) <= s.len(),
        lead_len(s) < s.len() ==> is_core_char(s[lead_len(s) as int]),
    decreases s.len(),
{
    if s.len() > 0 && !is_core_char(s[0]) {
        let t = s.drop_first();
        lemma_lead_chars(t);
        assert forall|j: int| 0 <= j < lead_len(s) implies !is_core_char(#[trigger] s[j]) by {
            if j > 0 {
                assert(s[j] == t[j - 1]);
            }
        }
        if lead_len(s) < s.len() {
            assert(s[lead_len(s) as int] == t[lead_len(t) as int]);
        }
    }
}

proof fn lemma_trail_chars(s: Seq<char>)
    ensures
        forall|j: int| s.len() - trail_len(s) <= j < s.len() ==> !is_core_char(#[trigger] s[j]),
        trail_len(s) <= s.len(),
        trail_len(s) < s.len() ==> is_core_char(s[s.len() - trail_len(s) - 1]),
    decreases s.len(),
{
    if s.len() > 0 && !is_core_char(s.last()) {
        let t = s.drop_last();
        lemma_trail_chars(t);
        assert forall|j: int| s.len() - trail_len(s) <= j < s.len() implies !is_core_char(
            #[trigger] s[j],
        ) by {
            if j < s.len() - 1 {
                assert(s[j] == t[j]);
            }
        }
        if trail_len(s) < s.len() {
            assert(s[s.len() - trail_len(s) - 1] == t[t.len() - trail_len(t) - 1]);
        }
    }
}

/// A token with a word in it: the word starts and ends with a core
/// character, and the punctuation around it has none.
proof fn lemma_token_parts(s: Seq<char>)
    requires
        lead_len(s) < s.len(),
    ensures
        affix_core(s).len() > 0,
        is_core_char(affix_core(s)[0]),
        is_core_char(affix_core(s).last()),
        forall|j: int| 0 <= j < affix_lead(s).len() ==> !is_core_char(#[trigger] affix_lead(s)[j]),
        forall|j: int| 0 <= j < affix_trail(s).len() ==> !is_core_char(
            #[trigger] affix_trail(s)[j],
        ),
        affix_lead(s) + affix_core(s) + affix_trail(s) == s,
{
    lemma_lead_chars(s);
    lemma_trail_chars(s);
    let a = lead_len(s) as int;
    let b = s.len() - trail_len(s);
    if b <= a {
        assert(!is_core_char(s[a]));
        assert(false);
    }
    assert forall|j: int| 0 <= j < affix_lead(s).len() implies !is_core_char(
        #[trigger] affix_lead(s)[j],
    ) by {
        assert(affix_lead(s)[j] == s[j]);
    }
    assert forall|j: int| 0 <= j < affix_trail(s).len() implies !is_core_char(
        #[trigger] affix_trail(s)[j],
    ) by {
        assert(affix_trail(s)[j] == s[b + j]);
    }
    assert(affix_lead(s) + affix_core(s) + affix_trail(s) =~= s);
}

/// The parts of `lead + word + trail` when the lead and trail hold no core
/// character and the word starts and ends with one.
proof fn lemma_affixes_of(x: Seq<char>, a: Seq<char>, c: Seq<char>, d: Seq<char>)
    requires
        x == a + c + d,
        c.len() > 0,
        is_core_char(c[0]),
        is_core_char(c.last()),
        forall|j: int| 0 <= j < a.len() ==> !is_core_char(#[trigger] a[j]),
        forall|j: int| 0 <= j < d.len() ==> !is_core_char(#[trigger] d[j]),
    ensures
        affix_lead(x) == a,
        affix_core(x) == c,
        affix_trail(x) == d,
{
    let n = a.len() as int;
    let m = (a.len() + c.len()) as int;
    assert forall|j: int| 0 <= j < n implies !is_core_char(x[j]) by {
        assert(x[j] == a[j]);
    }
    lemma_lead_len_skip(x, n);
    assert(x.skip(n)[0] == c[0]);
    assert(lead_len(x.skip(n)) == 0);
    assert forall|j: int| m <= j < x.len() implies !is_core_char(x[j]) by {
        assert(x[j] == d[j - m]);
    }
    lemma_trail_len_take(x, m);
    assert(x.take(m).last() == c.last());
    assert(trail_len(x.take(m)) == 0);
    assert(affix_lead(x) =~= a);
    assert(affix_core(x) =~= c);
    assert(affix_trail(x) =~= d);
}

proof fn lemma_run_end_keys(toks: Seq<Seq<char>>, j: int, key: Seq<char>)
    requires
        0 <= j <= toks.len(),
    ensures
        forall|y: int| j <= y < run_end(toks, j, key) ==> run_key(#[trigger] toks[y]) == key,
        run_end(toks, j, key) < toks.len() ==> run_key(toks[run_end(toks, j, key)]) != key,
    decreases toks.len() - j,
{
    if j < toks.len() && run_key(toks[j]) == key {
        lemma_run_end_keys(toks, j + 1, key);
    }
}

proof fn lemma_run_end_shift(a: Seq<Seq<char>>, b: Seq<Seq<char>>, j: int, key: Seq<char>)
    requires
        a.len() <= j <= a.len() + b.len(),
    ensures
        run_end(a + b, j, key) == a.len() + run_end(b, j - a.len(), key),
    decreases a.len() + b.len() - j,
{
    if j < a.len() + b.len() {
        assert((a + b)[j] == b[j - a.len()]);
        if run_key(b[j - a.len()]) == key {
            lemma_run_end_shift(a, b, j + 1, key);
        }
    }
}

proof fn lemma_run_end_stops(c: Seq<Seq<char>>, j: int, n: int, key: Seq<char>)
    requires
        0 <= j <= n <= c.len(),
        forall|y: int| j <= y < n ==> run_key(#[trigger] c[y]) == key,
        n < c.len() ==> run_key(c[n]) != key,
    ensures
        run_end(c, j, key) == n,
    decreases n - j,
{
    if j < n {
        lemma_run_end_stops(c, j + 1, n, key);
    }
}

/// What `o + r` keeps of `r`'s runs: the runs from index `o.len()` on.
proof fn lemma_ordinary_after(o: Seq<Seq<char>>, r: Seq<Seq<char>>, x: int)
    requires
        ordinary_repetition(r),
        o.len() <= x < o.len() + r.len(),
    ensures
        !run_reaches_threshold(o + r, x),
{
    let c = o + r;
    let y = x - o.len();
    assert(c[x] == r[y]);
    let key = run_key(r[y]);
    lemma_run_end_shift(o, r, x + 1, key);
    assert(!run_reaches_threshold(r, y));
}

/// Everything that cleaning gives from index `i` on is a word, no word in it
/// repeats often enough to be collapsed again, and it starts with the key of
/// the token at `i`.
proof fn lemma_cleaned_from_settled(toks: Seq<Seq<char>>, i: int)
    requires
        0 <= i <= toks.len(),
        forall|k: int| 0 <= k < toks.len() ==> crate::text::is_word(#[trigger] toks[k]),
        !unicode_alphanumeric('.'),
        unicode_lowercase(Seq::<char>::empty()) == Seq::<char>::empty(),
    ensures
        ordinary_repetition(cleaned_from(toks, i)),
        forall|k: int| 0 <= k < cleaned_from(toks, i).len() ==> crate::text::is_word(
            #[trigger] cleaned_from(toks, i)[k],
        ),
        i < toks.len() ==> cleaned_from(toks, i).len() > 0 && run_key(cleaned_from(toks, i)[0])
            == run_key(toks[i]),
    decreases toks.len() - i,
{
    if i < toks.len() {
        let key = run_key(toks[i]);
        let c = cleaned_from(toks, i);
        if key.len() == 0 {
            lemma_cleaned_from_settled(toks, i + 1);
            let o = seq![toks[i]];
            let r = cleaned_from(toks, i + 1);
            assert(c == o + r);
            assert forall|x: int| 0 <= x < c.len() implies !#[trigger] run_reaches_threshold(c, x) by {
                if x >= 1 {
                    lemma_ordinary_after(o, r, x);
                }
            }
            assert forall|k: int| 0 <= k < c.len() implies crate::text::is_word(#[trigger] c[k]) by {
                if k >= 1 {
                    assert(c[k] == r[k - 1]);
                }
            }
        } else {
            lemma_run_end_bounds(toks, i + 1, key);
            let e = run_end(toks, i + 1, key);
            lemma_run_end_keys(toks, i + 1, key);
            lemma_cleaned_from_settled(toks, e);
            let o = run_output(toks, i, e, key);
            let r = cleaned_from(toks, e);
            assert(c == o + r);
            let t = threshold_spec(key);
            // Every token of the run's output has the run's key.
            if t is Some && e - i >= t->Some_0 {
                let first = toks[i];
                let last = toks[e - 1];
                assert(run_key(last) == key);
                lemma_lead_chars(first);
                lemma_lead_chars(last);
                if lead_len(first) == first.len() {
                    assert(affix_core(first) =~= Seq::<char>::empty());
                    assert(false);
                }
                if lead_len(last) == last.len() {
                    assert(affix_core(last) =~= Seq::<char>::empty());
                    assert(false);
                }
                lemma_token_parts(first);
                lemma_token_parts(last);
                reveal_strlit("...");
                let dots = "..."@;
                assert(dots =~= seq!['.', '.', '.']);
                assert forall|j: int| 0 <= j < dots.len() implies !is_core_char(#[trigger] dots[j]) by {}
                lemma_affixes_of(
                    affix_lead(first) + affix_core(first) + dots,
                    affix_lead(first),
                    affix_core(first),
                    dots,
                );
                lemma_affixes_of(
                    affix_core(last) + affix_trail(last),
                    Seq::<char>::empty(),
                    affix_core(last),
                    affix_trail(last),
                );
                assert(Seq::<char>::empty() + affix_core(last) + affix_trail(last) == affix_core(
                    last,
                ) + affix_trail(last));
                assert(run_key(o[0]) == key);
                assert(run_key(o[1]) == key);
                // Both tokens are words.
                let w0 = o[0];
                let w1 = o[1];
                assert(crate::text::is_word(first));
                assert(crate::text::is_word(last));
                assert forall|k: int| 0 <= k < w0.len() implies !crate::text::is_ws(#[trigger] w0[k]) by {
                    if k < affix_lead(first).len() + affix_core(first).len() {
                        assert(w0[k] == first[k]);
                    } else {
                        assert(w0[k] == '.');
                    }
                }
                assert forall|k: int| 0 <= k < w1.len() implies !crate::text::is_ws(#[trigger] w1[k]) by {
                    assert(w1[k] == last[k + affix_lead(last).len()]);
                }
            } else {
                assert(o == toks.subrange(i, e));
            }
            assert forall|y: int| 0 <= y < o.len() implies run_key(#[trigger] o[y]) == key by {
                if !(t is Some && e - i >= t->Some_0) {
                    assert(o[y] == toks[i + y]);
                }
            }
            assert forall|x: int| 0 <= x < c.len() implies !#[trigger] run_reaches_threshold(c, x) by {
                if x >= o.len() {
                    lemma_ordinary_after(o, r, x);
                } else {
                    assert(c[x] == o[x]);
                    assert forall|y: int| x + 1 <= y < o.len() implies run_key(#[trigger] c[y]) == key by {
                        assert(c[y] == o[y]);
                    }
                    if o.len() < c.len() {
                        assert(c[o.len() as int] == r[0]);
                    }
                    lemma_run_end_stops(c, x + 1, o.len() as int, key);
                }
            }
            assert forall|k: int| 0 <= k < c.len() implies crate::text::is_word(#[trigger] c[k]) by {
                if k >= o.len() {
                    assert(c[k] == r[k - o.len()]);
                } else if !(t is Some && e - i >= t->Some_0) {
                    assert(c[k] == toks[i + k]);
                } else {
                    assert(c[k] == o[k]);
                }
            }
            assert(c[0] == o[0]);
        }
    }
}

/// Cleaning settles in one pass: cleaning cleaned text changes nothing.
/// It rests on two facts of std that the wrappers `char_is_alphanumeric` and
/// `to_lowercase` state for their results: `'.'` is not alphanumeric, and the
/// lowercase form of the empty string is empty.
pub proof fn lemma_clean_idempotent(text: Seq<char>)
    requires
        !unicode_alphanumeric('.'),
        unicode_lowercase(Seq::<char>::empty()) == Seq::<char>::empty(),
    ensures
        clean_spec(clean_spec(text)) == clean_spec(text),
{
    let toks = words(text);
    crate::text::lemma_words_are_words(text);
    lemma_cleaned_from_settled(toks, 0);
    let c = cleaned_from(toks, 0);
    reveal_strlit(" ");
    assert(" "@ =~= seq![' ']);
    crate::text::lemma_words_of_join(c);
    let x = join(c, seq![' ']);
    assert(clean_spec(text) == x);
    lemma_cleaned_from_unchanged(c, 0);
    assert(c.skip(0) =~= c);
    assert(clean_spec(x) == x);
}

proof fn lemma_nonblank_lines(segs: Seq<SegmentSpec>)
    ensures
        ({
            let kept = segs.filter(|s: SegmentSpec| trim(s.text).len() > 0);
            &&& timestamped_lines_spec(segs) == kept.map_values(
                |s: SegmentSpec| hhmmss_spec(whole_seconds_spec(s.start)) + " - "@ + trim(s.text),
            )
            &&& plain_lines(segs) == kept.map_values(|s: SegmentSpec| trim(s.text))
        }),
    decreases segs.len(),
{
    reveal(Seq::filter);
    if segs.len() > 0 {
        lemma_nonblank_lines(segs.drop_last());
        let prev = segs.drop_last().filter(|s: SegmentSpec| trim(s.text).len() > 0);
        let kept = segs.filter(|s: SegmentSpec| trim(s.text).len() > 0);
        if trim(segs.last().text).len() > 0 {
            assert(kept == prev.push(segs.last()));
            assert(kept.map_values(
                |s: SegmentSpec| hhmmss_spec(whole_seconds_spec(s.start)) + " - "@ + trim(s.text),
            ) =~= prev.map_values(
                |s: SegmentSpec| hhmmss_spec(whole_seconds_spec(s.start)) + " - "@ + trim(s.text),
            ).push(hhmmss_spec(whole_seconds_spec(segs.last().start)) + " - "@ + trim(segs.last().text)));
            assert(kept.map_values(|s: SegmentSpec| trim(s.text)) =~= prev.map_values(
                |s: SegmentSpec| trim(s.text),
            ).push(trim(segs.last().text)));
        } else {
            assert(kept == prev);
        }
    } else {
        let kept = segs.filter(|s: SegmentSpec| trim(s.text).len() > 0);
        assert(kept =~= Seq::<SegmentSpec>::empty());
        assert(kept.map_values(
            |s: SegmentSpec| hhmmss_spec(whole_seconds_spec(s.start)) + " - "@ + trim(s.text),
        ) =~= Seq::<Seq<char>>::empty());
        assert(kept.map_values(|s: SegmentSpec| trim(s.text)) =~= Seq::<Seq<char>>::empty());
    }
}

/// The text outputs: with time stamps, one line `HH:MM:SS - text` per
/// non-blank segment, in order; plain, the trimmed texts of the non-blank
/// segments one per line (or the whole trimmed text when there are no
/// segments); compact, the trimmed text on one line, line breaks turned into
/// spaces.
pub proof fn lemma_text_outputs(r: crate::types::ResultSpec)
    ensures
        ({
            let segs = segments_or_empty(r.segments);
            let kept = segs.filter(|s: SegmentSpec| trim(s.text).len() > 0);
            &&& text_output_spec(
                r,
                crate::types::OutputFormat::Text(crate::types::TextFormat::Timestamped),
            ) == join(
                kept.map_values(
                    |s: SegmentSpec| hhmmss_spec(whole_seconds_spec(s.start)) + " - "@ + trim(s.text),
                ),
                "\n"@,
            )
            &&& r.segments is Some ==> text_output_spec(
                r,
                crate::types::OutputFormat::Text(crate::types::TextFormat::Plain),
            ) == join(kept.map_values(|s: SegmentSpec| trim(s.text)), "\n"@)
            &&& r.segments is None ==> text_output_spec(
                r,
                crate::types::OutputFormat::Text(crate::types::TextFormat::Plain),
            ) == trim(r.text)
            &&& text_output_spec(
                r,
                crate::types::OutputFormat::Text(crate::types::TextFormat::Compact),
            ) == trim(trim(r.text).map_values(|c: char| if c == '\n' { ' ' } else { c }))
        }),
{
    lemma_nonblank_lines(segments_or_empty(r.segments));
}

/// Rendering with cleaning on gives exactly what rendering the cleaned report
/// with cleaning off gives, in every output format (JSON included).
pub proof fn lemma_clean_render_is_raw_render_of_cleaned(
    r: crate::types::ResultSpec,
    format: crate::types::OutputFormat,
)
    ensures
        effective_result(r, true) == effective_result(cleaned_result_spec(r), false),
        text_output_spec(effective_result(r, true), format) == text_output_spec(
            effective_result(cleaned_result_spec(r), false),
            format,
        ),
{
}

/// Cleaning a cleaned report changes nothing: its text, chunk texts and
/// segment texts are already settled (on the same two facts of std as
/// `lemma_clean_idempotent`).
pub proof fn lemma_cleaned_report_is_settled(r: crate::types::ResultSpec)
    requires
        !unicode_alphanumeric('.'),
        unicode_lowercase(Seq::<char>::empty()) == Seq::<char>::empty(),
    ensures
        cleaned_result_spec(cleaned_result_spec(r)) == cleaned_result_spec(r),
{
    lemma_clean_idempotent(r.text);
    let c1 = cleaned_chunks_spec(r.chunks);
    assert forall|k: int| 0 <= k < c1.len() implies #[trigger] cleaned_chunks_spec(c1)[k]
        == c1[k] by {
        lemma_clean_idempotent(r.chunks[k].text);
    }
    assert(cleaned_chunks_spec(c1) =~= c1);
    match r.segments {
        Some(segs) => {
            let s1 = cleaned_segments_spec(segs);
            assert forall|k: int| 0 <= k < s1.len() implies #[trigger] cleaned_segments_spec(
                s1,
            )[k] == s1[k] by {
                lemma_clean_idempotent(segs[k].text);
            }
            assert(cleaned_segments_spec(s1) =~= s1);
        },
        None => {},
    }
}

/// Cleaning is conservative: text in which no word repeats in a row as often
/// as its threshold comes out with only its white space collapsed.
pub proof fn lemma_clean_leaves_ordinary_text(text: Seq<char>)
    requires
        ordinary_repetition(words(text)),
    ensures
        clean_spec(text) == collapse_ws(text),
{
    let toks = words(text);
    lemma_cleaned_from_unchanged(toks, 0);
    assert(toks.skip(0) =~= toks);
    crate::text::lemma_words_are_words(text);
    reveal_strlit(" ");
    assert(" "@ =~= seq![' ']);
    crate::text::lemma_words_of_join(toks);
}

} // verus!

verus! {

/// One line per non-blank segment: its trimmed text, after its start time
/// when time stamps are asked for, with no speaker label.
pub open spec fn unlabelled_lines(segs: Seq<SegmentSpec>, format: crate::types::SpeakersFormat) -> Seq<
    Seq<char>,
>
    decreases segs.len(),
{
    if segs.len() == 0 {
        seq![]
    } else {
        let s = segs.last();
        if trim(s.text).len() > 0 {
            unlabelled_lines(segs.drop_last(), format).push(
                turn_line(format, s.start, None, trim(s.text)),
            )
        } else {
            unlabelled_lines(segs.drop_last(), format)
        }
    }
}

/// No segment carries a non-blank speaker label.
pub open spec fn all_unlabelled(segs: Seq<SegmentSpec>) -> bool {
    forall|i: int| 0 <= i < segs.len() ==> #[trigger] speaker_label_spec(segs[i].speaker) is None
}

proof fn lemma_unlabelled_fold(segs: Seq<SegmentSpec>, format: crate::types::SpeakersFormat)
    requires
        all_unlabelled(segs),
    ensures
        ({
            let st = speaker_fold(segs, format, false);
            &&& st.speaker is None
            &&& st.parts.len() <= 1
            &&& st.parts.len() == 0 ==> st.lines == unlabelled_lines(segs, format)
            &&& st.parts.len() == 1 ==> trim(st.parts[0]) == st.parts[0] && st.parts[0].len() > 0
                && st.lines.push(turn_line(format, st.start, None, st.parts[0]))
                == unlabelled_lines(segs, format)
        }),
    decreases segs.len(),
{
    if segs.len() > 0 {
        let init = segs.drop_last();
        assert forall|i: int| 0 <= i < init.len() implies #[trigger] speaker_label_spec(
            init[i].speaker,
        ) is None by {
            assert(init[i] == segs[i]);
        }
        lemma_unlabelled_fold(init, format);
        let st = speaker_fold(init, format, false);
        let s = segs.last();
        assert(speaker_label_spec(segs[segs.len() - 1].speaker) is None);
        let t = trim(s.text);
        if t.len() > 0 {
            crate::text::lemma_trim_idempotent(s.text);
            if st.parts.len() == 1 {
                assert(join(st.parts, " "@) == st.parts[0]);
            } else {
                assert(st.parts =~= Seq::<Seq<char>>::empty());
                assert(join(st.parts, " "@) =~= Seq::<char>::empty());
                assert(trim(Seq::<char>::empty()) =~= Seq::<char>::empty());
            }
        }
    }
}

/// Without speaker labels (no diarization, or none found) and without
/// merging, every non-blank segment becomes a line of its own holding just
/// its text, after its start time when time stamps are asked for; no
/// `UNKNOWN:` label is added.
pub proof fn lemma_unlabelled_segments_keep_their_text(
    segs: Seq<SegmentSpec>,
    format: crate::types::SpeakersFormat,
)
    requires
        all_unlabelled(segs),
    ensures
        speaker_lines_spec(segs, format, false) == unlabelled_lines(segs, format),
{
    lemma_unlabelled_fold(segs, format);
    let st = speaker_fold(segs, format, false);
    if st.parts.len() == 1 {
        assert(join(st.parts, " "@) == st.parts[0]);
    } else {
        assert(st.parts =~= Seq::<Seq<char>>::empty());
        assert(join(st.parts, " "@) =~= Seq::<char>::empty());
        assert(trim(Seq::<char>::empty()) =~= Seq::<char>::empty());
    }
}

/// The trimmed texts of the non-blank segments, in order.
pub open spec fn nonblank_texts(segs: Seq<SegmentSpec>) -> Seq<Seq<char>>
    decreases segs.len(),
{
    if segs.len() == 0 {
        seq![]
    } else {
        let r = nonblank_texts(segs.drop_last());
        if trim(segs.last().text).len() > 0 {
            r.push(trim(segs.last().text))
        } else {
            r
        }
    }
}

/// The start of the first non-blank segment.
pub open spec fn first_nonblank_start(segs: Seq<SegmentSpec>) -> u64
    decreases segs.len(),
{
    if segs.len() == 0 {
        0
    } else if nonblank_texts(segs.drop_last()).len() > 0 {
        first_nonblank_start(segs.drop_last())
    } else {
        segs.last().start
    }
}

proof fn lemma_unlabelled_merged_fold(segs: Seq<SegmentSpec>, format: crate::types::SpeakersFormat)
    requires
        all_unlabelled(segs),
    ensures
        ({
            let st = speaker_fold(segs, format, true);
            &&& st.speaker is None
            &&& st.lines.len() == 0
            &&& st.parts == nonblank_texts(segs)
            &&& st.parts.len() > 0 ==> st.start == first_nonblank_start(segs)
        }),
    decreases segs.len(),
{
    if segs.len() > 0 {
        let init = segs.drop_last();
        assert forall|i: int| 0 <= i < init.len() implies #[trigger] speaker_label_spec(
            init[i].speaker,
        ) is None by {
            assert(init[i] == segs[i]);
        }
        lemma_unlabelled_merged_fold(init, format);
        assert(speaker_label_spec(segs[segs.len() - 1].speaker) is None);
        let st = speaker_fold(init, format, true);
        if st.parts.len() == 0 {
            assert(st.parts =~= Seq::<Seq<char>>::empty());
            assert(join(st.parts, " "@) =~= Seq::<char>::empty());
            assert(trim(Seq::<char>::empty()) =~= Seq::<char>::empty());
        }
    }
}

/// Every segment carries the speaker label `label` (after normalisation).
pub open spec fn all_labelled(segs: Seq<SegmentSpec>, label: Option<Seq<char>>) -> bool {
    forall|i: int| 0 <= i < segs.len() ==> #[trigger] speaker_label_spec(segs[i].speaker) == label
}

proof fn lemma_one_speaker_merged_fold(
    segs: Seq<SegmentSpec>,
    format: crate::types::SpeakersFormat,
    label: Option<Seq<char>>,
)
    requires
        all_labelled(segs, label),
    ensures
        ({
            let st = speaker_fold(segs, format, true);
            &&& st.lines.len() == 0
            &&& st.parts == nonblank_texts(segs)
            &&& st.parts.len() > 0 ==> st.start == first_nonblank_start(segs) && st.speaker == label
        }),
    decreases segs.len(),
{
    if segs.len() > 0 {
        let init = segs.drop_last();
        assert forall|i: int| 0 <= i < init.len() implies #[trigger] speaker_label_spec(
            init[i].speaker,
        ) == label by {
            assert(init[i] == segs[i]);
        }
        lemma_one_speaker_merged_fold(init, format, label);
        assert(speaker_label_spec(segs[segs.len() - 1].speaker) == label);
        let st = speaker_fold(init, format, true);
        if st.parts.len() == 0 {
            assert(st.parts =~= Seq::<Seq<char>>::empty());
            assert(join(st.parts, " "@) =~= Seq::<char>::empty());
            assert(trim(Seq::<char>::empty()) =~= Seq::<char>::empty());
        }
    }
}

/// The speakers output merges the turns of one speaker: when every segment
/// of a report carries the same speaker label, its speakers rendering is a
/// single line, stamped with the start of the first non-blank segment and
/// holding the non-blank texts joined by spaces (and is empty when every
/// segment is blank).
pub proof fn lemma_speakers_output_merges_one_speaker(
    r: crate::types::ResultSpec,
    format: crate::types::SpeakersFormat,
    label: Option<Seq<char>>,
)
    requires
        r.segments matches Some(segs) && all_labelled(segs, label),
    ensures
        ({
            let segs = r.segments->Some_0;
            let text = trim(join(nonblank_texts(segs), " "@));
            text_output_spec(r, crate::types::OutputFormat::Speakers(format)) == if text.len()
                == 0 {
                Seq::<char>::empty()
            } else {
                turn_line(format, first_nonblank_start(segs), label, text)
            }
        }),
{
    let segs = r.segments->Some_0;
    lemma_one_speaker_merged_fold(segs, format, label);
    let st = speaker_fold(segs, format, true);
    let text = trim(join(nonblank_texts(segs), " "@));
    if st.parts.len() == 0 {
        assert(st.parts =~= Seq::<Seq<char>>::empty());
        assert(join(st.parts, " "@) =~= Seq::<char>::empty());
        assert(trim(Seq::<char>::empty()) =~= Seq::<char>::empty());
    }
    if text.len() > 0 {
        let lines = flush_spec(st, format).lines;
        assert(lines =~= seq![turn_line(format, st.start, label, text)]);
        assert(join(lines, "\n"@) == lines[0]);
    } else {
        assert(flush_spec(st, format).lines =~= Seq::<Seq<char>>::empty());
    }
}

/// In the speakers output, two non-blank segments of different speakers make
/// two lines, each stamped with its own start and labelled with its own
/// speaker.
pub proof fn lemma_speakers_output_two_speakers(
    r: crate::types::ResultSpec,
    format: crate::types::SpeakersFormat,
    a: SegmentSpec,
    b: SegmentSpec,
)
    requires
        r.segments == Some(seq![a, b]),
        trim(a.text).len() > 0,
        trim(b.text).len() > 0,
        speaker_label_spec(a.speaker) != speaker_label_spec(b.speaker),
    ensures
        text_output_spec(r, crate::types::OutputFormat::Speakers(format)) == turn_line(
            format,
            a.start,
            speaker_label_spec(a.speaker),
            trim(a.text),
        ) + "\n"@ + turn_line(format, b.start, speaker_label_spec(b.speaker), trim(b.text)),
{
    let segs = seq![a, b];
    assert(segs.drop_last() =~= seq![a]);
    assert(seq![a].drop_last() =~= Seq::<SegmentSpec>::empty());
    crate::text::lemma_trim_idempotent(a.text);
    crate::text::lemma_trim_idempotent(b.text);
    let e = Seq::<Seq<char>>::empty();
    assert(join(e, " "@) =~= Seq::<char>::empty());
    assert(trim(Seq::<char>::empty()) =~= Seq::<char>::empty());
    assert(join(seq![trim(a.text)], " "@) == trim(a.text));
    assert(join(seq![trim(b.text)], " "@) == trim(b.text));
    assert(seq![a].last() == a);
    assert(segs.last() == b);
    assert(speaker_fold(Seq::<SegmentSpec>::empty(), format, true) == speaker_lines_initial());
    assert(speaker_fold(seq![a], format, true) == speaker_step(
        speaker_lines_initial(),
        a,
        format,
        true,
    ));
    assert(flush_spec(speaker_lines_initial(), format).lines =~= e);
    let st1 = speaker_fold(seq![a], format, true);
    assert(st1.parts == seq![trim(a.text)]);
    assert(st1.lines =~= e);
    let st2 = speaker_fold(segs, format, true);
    assert(st2.lines =~= seq![turn_line(format, a.start, speaker_label_spec(a.speaker), trim(a.text))]);
    let lines = speaker_lines_spec(segs, format, true);
    assert(lines =~= seq![
        turn_line(format, a.start, speaker_label_spec(a.speaker), trim(a.text)),
        turn_line(format, b.start, speaker_label_spec(b.speaker), trim(b.text)),
    ]);
    assert(lines.drop_last() =~= seq![lines[0]]);
    assert(join(lines.drop_last(), "\n"@) == lines[0]);
}

/// Without speaker labels and with merging (as the speakers output renders),
/// the whole transcript becomes one line, stamped with the start of its
/// first non-blank segment; nothing at all when every segment is blank.
pub proof fn lemma_unlabelled_segments_merge_into_one_turn(
    segs: Seq<SegmentSpec>,
    format: crate::types::SpeakersFormat,
)
    requires
        all_unlabelled(segs),
    ensures
        ({
            let text = trim(join(nonblank_texts(segs), " "@));
            speaker_lines_spec(segs, format, true) == if text.len() == 0 {
                Seq::<Seq<char>>::empty()
            } else {
                seq![turn_line(format, first_nonblank_start(segs), None, text)]
            }
        }),
{
    lemma_unlabelled_merged_fold(segs, format);
    let st = speaker_fold(segs, format, true);
    let text = trim(join(nonblank_texts(segs), " "@));
    if text.len() > 0 {
        if st.parts.len() == 0 {
            assert(st.parts =~= Seq::<Seq<char>>::empty());
            assert(join(st.parts, " "@) =~= Seq::<char>::empty());
            assert(trim(Seq::<char>::empty()) =~= Seq::<char>::empty());
        }
        assert(flush_spec(st, format).lines =~= seq![turn_line(format, st.start, None, text)]);
    } else {
        assert(flush_spec(st, format).lines =~= Seq::<Seq<char>>::empty());
    }
}

} // verus!
