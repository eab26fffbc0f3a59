//! Remote media: telling URLs from paths, choosing a platform subtitle track,
//! reading WebVTT and json3 subtitles, and reading what `yt-dlp` reports.

use vstd::prelude::*;

use crate::binary64::{ieee_le, Binary64};
use crate::number::{parse_u64, u64_from_str};
use crate::text::{
    append_str, chars_eq, chars_of, collapse_whitespace, collapse_ws, join, starts_with_lit,
    string_of, string_views, trim, trim_chars, trim_str, words,
};
use crate::types::{segments_view, InputSource, SegmentSpec, TranscriptSegment};

verus! {

// ---------------------------------------------------------------------------
// Inputs
// ---------------------------------------------------------------------------

/// Whether the input names remote media: it starts with `https://` or
/// `http://`.
pub open spec fn is_remote_spec(value: Seq<char>) -> bool {
    ("https://"@.len() <= value.len() && value.take("https://"@.len() as int) == "https://"@) || (
    "http://"@.len() <= value.len() && value.take("http://"@.len() as int) == "http://"@)
}

/// A URL for `http://` and `https://` inputs, a local path otherwise.
pub fn infer_input_source(value: &str) -> (r: InputSource)
    ensures
        match r {
            InputSource::RemoteUrl(u) => is_remote_spec(value@) && u@ == value@,
            InputSource::LocalPath(p) => !is_remote_spec(value@) && p@ == value@,
        },
{
    let v = chars_of(value);
    if starts_with_lit(v.as_slice(), "https://") || starts_with_lit(v.as_slice(), "http://") {
        InputSource::RemoteUrl(value.to_string())
    } else {
        InputSource::LocalPath(value.to_string())
    }
}

// ---------------------------------------------------------------------------
// Subtitle tracks
// ---------------------------------------------------------------------------

/// One subtitle track that the platform offers.
#[derive(Clone, Debug, PartialEq)]
pub struct YtDlpSubtitleTrack {
    pub ext: Option<String>,
}

/// The tracks offered for one language.
#[derive(Clone, Debug, PartialEq)]
pub struct SubtitleLanguage {
    pub language: String,
    pub tracks: Vec<YtDlpSubtitleTrack>,
}

/// What `yt-dlp` reports about a video: its id, its title, and its manual
/// subtitles by language (in increasing order of language code, one entry
/// per language).
#[derive(Clone, Debug, PartialEq)]
pub struct YtDlpVideoInfo {
    pub id: Option<String>,
    pub title: Option<String>,
    pub subtitles: Option<Vec<SubtitleLanguage>>,
}

/// Whether `a` comes before `b` in the order of `String`: character by
/// character from position `k` on, a proper prefix first.
pub open spec fn chars_before_from(a: Seq<char>, b: Seq<char>, k: int) -> bool
    decreases a.len() - k,
{
    if k >= a.len() {
        k < b.len()
    } else if k >= b.len() {
        false
    } else if a[k] != b[k] {
        (a[k] as u32) < (b[k] as u32)
    } else {
        chars_before_from(a, b, k + 1)
    }
}

pub open spec fn chars_before(a: Seq<char>, b: Seq<char>) -> bool {
    chars_before_from(a, b, 0)
}

pub open spec fn language_follows(subs: Seq<SubtitleLanguage>, i: int) -> bool {
    chars_before(subs[i - 1].language@, subs[i].language@)
}

/// The languages come in strictly increasing order (so none comes twice),
/// as they do in the map that `yt-dlp`'s JSON is read into.
pub open spec fn languages_in_order(subs: Seq<SubtitleLanguage>) -> bool {
    forall|i: int| 0 < i < subs.len() ==> #[trigger] language_follows(subs, i)
}

pub open spec fn info_in_order(info: YtDlpVideoInfo) -> bool {
    info.subtitles matches Some(v) ==> languages_in_order(v@)
}

fn chars_less(a: &[char], b: &[char]) -> (r: bool)
    ensures
        r == chars_before(a@, b@),
{
    let mut k: usize = 0;
    while k < a.len() && k < b.len()
        invariant
            k <= a.len(),
            k <= b.len(),
            chars_before(a@, b@) == chars_before_from(a@, b@, k as int),
        decreases a.len() - k,
    {
        if a[k] != b[k] {
            return (a[k] as u32) < (b[k] as u32);
        }
        k = k + 1;
    }
    k < b.len()
}

/// Whether the subtitle languages of `info` are in strictly increasing
/// order, as the functions that choose among them require.
pub fn subtitle_languages_in_order(info: &YtDlpVideoInfo) -> (r: bool)
    ensures
        r == info_in_order(*info),
{
    let subs = match &info.subtitles {
        None => return true,
        Some(s) => s,
    };
    let mut i: usize = 1;
    while i < subs.len()
        invariant
            1 <= i,
            info.subtitles == Some(*subs),
            forall|j: int| 0 < j < i && j < subs@.len() ==> #[trigger] language_follows(subs@, j),
        decreases subs.len() - i,
    {
        let a = chars_of(subs[i - 1].language.as_str());
        let b = chars_of(subs[i].language.as_str());
        if !chars_less(a.as_slice(), b.as_slice()) {
            assert(!language_follows(subs@, i as int));
            return false;
        }
        i = i + 1;
    }
    true
}

/// Languages in the order they are preferred.
pub open spec fn preferred_languages() -> Seq<Seq<char>> {
    seq!["pt-BR"@, "pt"@, "en"@, "en-US"@]
}

/// The first entry from `i` on for `lang`.
pub open spec fn entry_from(subs: Seq<SubtitleLanguage>, lang: Seq<char>, i: int) -> Option<int>
    decreases subs.len() - i,
{
    if i < 0 || i >= subs.len() {
        None
    } else if subs[i].language@ == lang {
        Some(i)
    } else {
        entry_from(subs, lang, i + 1)
    }
}

/// The entry for `lang` (the first, should there be several).
pub open spec fn entry_for(subs: Seq<SubtitleLanguage>, lang: Seq<char>) -> Option<int> {
    entry_from(subs, lang, 0)
}

/// Whether `lang` has at least one track.
pub open spec fn has_tracks(subs: Seq<SubtitleLanguage>, lang: Seq<char>) -> bool {
    match entry_for(subs, lang) {
        Some(i) => subs[i].tracks@.len() > 0,
        None => false,
    }
}

/// The first language from `i` on that has a track.
pub open spec fn first_with_tracks(subs: Seq<SubtitleLanguage>, i: int) -> Option<Seq<char>>
    decreases subs.len() - i,
{
    if i < 0 || i >= subs.len() {
        None
    } else if subs[i].tracks@.len() > 0 {
        Some(subs[i].language@)
    } else {
        first_with_tracks(subs, i + 1)
    }
}

/// The language whose manual subtitles are used: the first preferred one
/// (`pt-BR`, `pt`, `en`, `en-US`) that has a track, else the first language
/// that has one.
pub open spec fn pick_language_spec(info: YtDlpVideoInfo) -> Option<Seq<char>> {
    match info.subtitles {
        None => None,
        Some(v) => {
            let subs = v@;
            let p = preferred_languages();
            if has_tracks(subs, p[0]) {
                Some(p[0])
            } else if has_tracks(subs, p[1]) {
                Some(p[1])
            } else if has_tracks(subs, p[2]) {
                Some(p[2])
            } else if has_tracks(subs, p[3]) {
                Some(p[3])
            } else {
                first_with_tracks(subs, 0)
            }
        },
    }
}

fn entry_index(subs: &Vec<SubtitleLanguage>, lang: &str) -> (r: Option<usize>)
    ensures
        r matches Some(i) ==> i < subs@.len(),
        match r {
            Some(i) => entry_for(subs@, lang@) == Some(i as int),
            None => entry_for(subs@, lang@) is None,
        },
{
    let mut i: usize = 0;
    while i < subs.len()
        invariant
            i <= subs.len(),
            entry_for(subs@, lang@) == entry_from(subs@, lang@, i as int),
        decreases subs.len() - i,
    {
        let v = chars_of(subs[i].language.as_str());
        if chars_eq(v.as_slice(), lang) {
            return Some(i);
        }
        i = i + 1;
    }
    None
}

fn language_has_tracks(subs: &Vec<SubtitleLanguage>, lang: &str) -> (r: bool)
    ensures
        r == has_tracks(subs@, lang@),
{
    match entry_index(subs, lang) {
        Some(i) => subs[i].tracks.len() > 0,
        None => false,
    }
}

/// The preference order of subtitle languages: a language that has a track
/// is picked exactly when no language before it in the order `pt-BR`, `pt`,
/// `en`, `en-US` has one; when none of these four has a track, the picked
/// language is the first listed one that has a track, and nothing is picked
/// when no language has any.
pub proof fn lemma_pick_follows_preferences(info: YtDlpVideoInfo)
    ensures
        info.subtitles matches Some(v) ==> {
            let subs = v@;
            let p = preferred_languages();
            &&& forall|j: int|
                0 <= j < 4 && has_tracks(subs, #[trigger] p[j]) && (forall|i: int|
                    0 <= i < j ==> !has_tracks(subs, p[i])) ==> pick_language_spec(info) == Some(
                    p[j],
                )
            &&& (forall|i: int| 0 <= i < 4 ==> !has_tracks(subs, #[trigger] p[i])) ==> {
                match pick_language_spec(info) {
                    Some(l) => exists|k: int|
                        0 <= k < subs.len() && subs[k].language@ == l && subs[k].tracks@.len() > 0
                            && forall|m: int| 0 <= m < k ==> #[trigger] subs[m].tracks@.len() == 0,
                    None => forall|k: int| 0 <= k < subs.len() ==> #[trigger] subs[k].tracks@.len()
                        == 0,
                }
            }
        },
        info.subtitles is None ==> pick_language_spec(info) is None,
{
    match info.subtitles {
        Some(v) => {
            let subs = v@;
            let p = preferred_languages();
            assert forall|j: int|
                0 <= j < 4 && has_tracks(subs, #[trigger] p[j]) && (forall|i: int|
                    0 <= i < j ==> !has_tracks(subs, p[i])) implies pick_language_spec(info) == Some(
                p[j],
            ) by {
                if j > 0 {
                    assert(!has_tracks(subs, p[0]));
                }
                if j > 1 {
                    assert(!has_tracks(subs, p[1]));
                }
                if j > 2 {
                    assert(!has_tracks(subs, p[2]));
                }
            }
            if forall|i: int| 0 <= i < 4 ==> !has_tracks(subs, #[trigger] p[i]) {
                assert(!has_tracks(subs, p[0]) && !has_tracks(subs, p[1]) && !has_tracks(subs, p[2])
                    && !has_tracks(subs, p[3]));
                lemma_first_with_tracks(subs, 0);
            }
        },
        None => {},
    }
}

proof fn lemma_first_with_tracks(subs: Seq<SubtitleLanguage>, i: int)
    requires
        0 <= i <= subs.len(),
        forall|m: int| 0 <= m < i ==> #[trigger] subs[m].tracks@.len() == 0,
    ensures
        match first_with_tracks(subs, i) {
            Some(l) => exists|k: int|
                0 <= k < subs.len() && subs[k].language@ == l && subs[k].tracks@.len() > 0
                    && forall|m: int| 0 <= m < k ==> #[trigger] subs[m].tracks@.len() == 0,
            None => forall|k: int| 0 <= k < subs.len() ==> #[trigger] subs[k].tracks@.len() == 0,
        },
    decreases subs.len() - i,
{
    if i < subs.len() {
        if subs[i].tracks@.len() > 0 {
            assert(subs[i].language@ == subs[i].language@);
        } else {
            lemma_first_with_tracks(subs, i + 1);
        }
    }
}

/// Chooses the subtitle language to download (see `pick_language_spec`).
pub fn pick_manual_subtitle_language(info: &YtDlpVideoInfo) -> (r: Option<String>)
    requires
        info_in_order(*info),
    ensures
        crate::paths::opt_chars(r) == pick_language_spec(*info),
{
    let subs = match &info.subtitles {
        None => return None,
        Some(s) => s,
    };
    proof {
        reveal_strlit("pt-BR");
        reveal_strlit("pt");
        reveal_strlit("en");
        reveal_strlit("en-US");
    }
    if language_has_tracks(subs, "pt-BR") {
        return Some("pt-BR".to_string());
    }
    if language_has_tracks(subs, "pt") {
        return Some("pt".to_string());
    }
    if language_has_tracks(subs, "en") {
        return Some("en".to_string());
    }
    if language_has_tracks(subs, "en-US") {
        return Some("en-US".to_string());
    }
    assert(pick_language_spec(*info) == first_with_tracks(subs@, 0));
    let mut i: usize = 0;
    while i < subs.len()
        invariant
            i <= subs.len(),
            pick_language_spec(*info) == first_with_tracks(subs@, i as int),
        decreases subs.len() - i,
    {
        if subs[i].tracks.len() > 0 {
            return Some(subs[i].language.clone());
        }
        i = i + 1;
    }
    None
}

pub open spec fn is_vtt_track(t: YtDlpSubtitleTrack) -> bool {
    match t.ext {
        Some(e) => e@ == "vtt"@,
        None => false,
    }
}

/// Whether some track of `tracks` has the extension `vtt`.
pub open spec fn offers_vtt(tracks: Seq<YtDlpSubtitleTrack>) -> bool {
    exists|k: int| 0 <= k < tracks.len() && is_vtt_track(#[trigger] tracks[k])
}

/// The subtitle format to ask for: `vtt` when the language offers it (or is
/// not listed at all), `json3` otherwise.
pub open spec fn subtitle_extension_spec(info: YtDlpVideoInfo, language: Seq<char>) -> Seq<char> {
    match info.subtitles {
        None => "vtt"@,
        Some(v) => match entry_for(v@, language) {
            None => "vtt"@,
            Some(i) => if offers_vtt(v@[i].tracks@) {
                "vtt"@
            } else {
                "json3"@
            },
        },
    }
}

/// The subtitle format asked for is `vtt` or `json3`: `vtt` exactly when the
/// language is not listed or one of its tracks has the extension `vtt`.
pub proof fn lemma_extension_prefers_vtt(info: YtDlpVideoInfo, language: Seq<char>)
    ensures
        subtitle_extension_spec(info, language) == "vtt"@ || subtitle_extension_spec(info, language)
            == "json3"@,
        info.subtitles is None ==> subtitle_extension_spec(info, language) == "vtt"@,
        info.subtitles matches Some(v) ==> (entry_for(v@, language) matches Some(i) ==> (
        subtitle_extension_spec(info, language) == "vtt"@ <==> exists|k: int|
            0 <= k < v@[i].tracks@.len() && (#[trigger] v@[i].tracks@[k]).ext is Some
                && v@[i].tracks@[k].ext->Some_0@ == "vtt"@)),
        info.subtitles matches Some(v) ==> (entry_for(v@, language) is None
            ==> subtitle_extension_spec(info, language) == "vtt"@),
{
    reveal_strlit("vtt");
    reveal_strlit("json3");
    assert("vtt"@ != "json3"@) by {
        assert("vtt"@.len() != "json3"@.len());
    }
    match info.subtitles {
        Some(v) => {
            match entry_for(v@, language) {
                Some(i) => {
                    let ts = v@[i].tracks@;
                    if offers_vtt(ts) {
                        let k = choose|k: int| 0 <= k < ts.len() && is_vtt_track(#[trigger] ts[k]);
                        assert(ts[k].ext is Some && ts[k].ext->Some_0@ == "vtt"@);
                    } else {
                        assert forall|k: int| 0 <= k < ts.len() implies !((#[trigger] ts[k]).ext is Some
                            && ts[k].ext->Some_0@ == "vtt"@) by {
                            assert(!is_vtt_track(ts[k]));
                        }
                    }
                },
                None => {},
            }
        },
        None => {},
    }
}

pub fn choose_subtitle_extension(info: &YtDlpVideoInfo, language: &str) -> (r: String)
    requires
        info_in_order(*info),
    ensures
        r@ == subtitle_extension_spec(*info, language@),
{
    let subs = match &info.subtitles {
        None => return "vtt".to_string(),
        Some(s) => s,
    };
    let i = match entry_index(subs, language) {
        None => return "vtt".to_string(),
        Some(i) => i,
    };
    let tracks = &subs[i].tracks;
    let ghost expected = subtitle_extension_spec(*info, language@);
    assert(expected == if offers_vtt(subs@[i as int].tracks@) {
        "vtt"@
    } else {
        "json3"@
    });
    let mut k: usize = 0;
    while k < tracks.len()
        invariant
            k <= tracks.len(),
            expected == subtitle_extension_spec(*info, language@),
            expected == if offers_vtt(subs@[i as int].tracks@) {
                "vtt"@
            } else {
                "json3"@
            },
            i < subs@.len(),
            tracks@ == subs@[i as int].tracks@,
            forall|j: int| 0 <= j < k ==> !is_vtt_track(#[trigger] tracks@[j]),
        decreases tracks.len() - k,
    {
        let is_vtt = match &tracks[k].ext {
            Some(e) => {
                let ev = chars_of(e.as_str());
                chars_eq(ev.as_slice(), "vtt")
            },
            None => false,
        };
        if is_vtt {
            assert(is_vtt_track(tracks@[k as int]));
            assert(offers_vtt(subs@[i as int].tracks@));
            return "vtt".to_string();
        }
        k = k + 1;
    }
    assert(!offers_vtt(subs@[i as int].tracks@));
    "json3".to_string()
}

/// What to download for the manual subtitles of `info`: nothing when no
/// language has a track, else the chosen language and the format to ask for.
pub fn manual_subtitle_plan(info: &YtDlpVideoInfo) -> (r: Option<(String, String)>)
    requires
        info_in_order(*info),
    ensures
        r is None <==> pick_language_spec(*info) is None,
        r matches Some((language, extension)) ==> Some(language@) == pick_language_spec(*info)
            && extension@ == subtitle_extension_spec(*info, language@),
{
    match pick_manual_subtitle_language(info) {
        None => None,
        Some(language) => {
            let extension = choose_subtitle_extension(info, language.as_str());
            Some((language, extension))
        },
    }
}

/// Whether a downloaded subtitle file is read as WebVTT (else as json3).
pub fn subtitle_is_vtt(extension: &str) -> (r: bool)
    ensures
        r == (extension@ == "vtt"@),
{
    let v = chars_of(extension);
    chars_eq(v.as_slice(), "vtt")
}

// ---------------------------------------------------------------------------
// `yt-dlp` command lines
// ---------------------------------------------------------------------------

fn push_arg(v: &mut Vec<String>, s: &str)
    ensures
        string_views(final(v)@) == string_views(old(v)@).push(s@),
{
    let ghost before = v@;
    v.push(s.to_string());
    assert(string_views(v@) == string_views(before).push(v@.last()@));
}

/// The arguments that ask `yt-dlp` for the metadata of `url`.
pub fn yt_dlp_info_args(url: &str) -> (r: Vec<String>)
    ensures
        string_views(r@) == seq!["--dump-single-json"@, "--no-warnings"@, "--no-playlist"@, url@],
{
    let mut v: Vec<String> = Vec::new();
    assert(string_views(v@) == Seq::<Seq<char>>::empty());
    push_arg(&mut v, "--dump-single-json");
    push_arg(&mut v, "--no-warnings");
    push_arg(&mut v, "--no-playlist");
    push_arg(&mut v, url);
    v
}

/// The arguments that download the manual subtitles of `url` in `language`
/// and `extension`, named by `template`, without the media.
pub fn yt_dlp_subtitle_args(language: &str, extension: &str, template: &str, url: &str) -> (r:
    Vec<String>)
    ensures
        string_views(r@) == seq![
            "--no-progress"@,
            "--no-warnings"@,
            "--skip-download"@,
            "--write-subs"@,
            "--sub-langs"@,
            language@,
            "--sub-format"@,
            extension@,
            "--no-playlist"@,
            "--output"@,
            template@,
            url@,
        ],
{
    let mut v: Vec<String> = Vec::new();
    assert(string_views(v@) == Seq::<Seq<char>>::empty());
    push_arg(&mut v, "--no-progress");
    push_arg(&mut v, "--no-warnings");
    push_arg(&mut v, "--skip-download");
    push_arg(&mut v, "--write-subs");
    push_arg(&mut v, "--sub-langs");
    push_arg(&mut v, language);
    push_arg(&mut v, "--sub-format");
    push_arg(&mut v, extension);
    push_arg(&mut v, "--no-playlist");
    push_arg(&mut v, "--output");
    push_arg(&mut v, template);
    push_arg(&mut v, url);
    v
}

/// The arguments that download the best audio of `url`, named by
/// `template`, and print the final path.
pub fn yt_dlp_audio_args(template: &str, url: &str) -> (r: Vec<String>)
    ensures
        string_views(r@) == seq![
            "--no-progress"@,
            "--no-warnings"@,
            "--no-playlist"@,
            "-f"@,
            "bestaudio/best"@,
            "--output"@,
            template@,
            "--print"@,
            "after_move:filepath"@,
            url@,
        ],
{
    let mut v: Vec<String> = Vec::new();
    assert(string_views(v@) == Seq::<Seq<char>>::empty());
    push_arg(&mut v, "--no-progress");
    push_arg(&mut v, "--no-warnings");
    push_arg(&mut v, "--no-playlist");
    push_arg(&mut v, "-f");
    push_arg(&mut v, "bestaudio/best");
    push_arg(&mut v, "--output");
    push_arg(&mut v, template);
    push_arg(&mut v, "--print");
    push_arg(&mut v, "after_move:filepath");
    push_arg(&mut v, url);
    v
}

// ---------------------------------------------------------------------------
// Joined subtitle text
// ---------------------------------------------------------------------------

pub open spec fn segment_texts(segs: Seq<SegmentSpec>) -> Seq<Seq<char>> {
    segs.map_values(|s: SegmentSpec| s.text)
}

/// The texts of the segments joined with single spaces.
pub fn join_segment_texts(segments: &Vec<TranscriptSegment>) -> (r: String)
    ensures
        r@ == join(segment_texts(segments_view(segments@)), seq![' ']),
{
    let mut r = String::new();
    let mut i: usize = 0;
    proof {
        reveal_strlit(" ");
    }
    while i < segments.len()
        invariant
            i <= segments.len(),
            " "@ == seq![' '],
            r@ == join(segment_texts(segments_view(segments@)).take(i as int), seq![' ']),
        decreases segments.len() - i,
    {
        let ghost ts = segment_texts(segments_view(segments@));
        assert(ts.take(i + 1).drop_last() == ts.take(i as int));
        assert(ts.take(i + 1).last() == segments@[i as int].text@);
        if i > 0 {
            append_str(&mut r, " ");
        }
        append_str(&mut r, segments[i].text.as_str());
        i = i + 1;
    }
    assert(segment_texts(segments_view(segments@)).take(segments.len() as int) == segment_texts(
        segments_view(segments@),
    ));
    r
}

/// A transcript read from platform subtitles.
pub struct DirectTranscript {
    pub text: String,
    pub segments: Vec<TranscriptSegment>,
}

/// The transcript of downloaded subtitles: the segment texts joined, or none
/// when that text is blank.
pub fn direct_transcript(segments: Vec<TranscriptSegment>) -> (r: Option<DirectTranscript>)
    ensures
        match r {
            Some(t) => t.text@ == join(segment_texts(segments_view(segments@)), seq![' '])
                && trim(t.text@).len() > 0 && segments_view(t.segments@) == segments_view(segments@),
            None => trim(join(segment_texts(segments_view(segments@)), seq![' '])).len() == 0,
        },
{
    let text = join_segment_texts(&segments);
    let t = trim_str(text.as_str());
    if t.len() == 0 {
        None
    } else {
        Some(DirectTranscript { text, segments })
    }
}

} // verus!

verus! {

// ---------------------------------------------------------------------------
// WebVTT subtitles
// ---------------------------------------------------------------------------

/// Line breaks made uniform: `\r\n` becomes `\n`, then each remaining `\r`
/// becomes `\n`.
pub open spec fn normalize_newlines(s: Seq<char>) -> Seq<char>
    decreases s.len(),
{
    if s.len() == 0 {
        seq![]
    } else if s[0] == '\r' && s.len() > 1 && s[1] == '\n' {
        normalize_newlines(s.drop_first())
    } else if s[0] == '\r' {
        seq!['\n'] + normalize_newlines(s.drop_first())
    } else {
        seq![s[0]] + normalize_newlines(s.drop_first())
    }
}

/// Pieces closed so far, and the open piece, when `s` is split at every `c`.
pub open spec fn split_state(s: Seq<char>, c: char) -> (Seq<Seq<char>>, Seq<char>)
    decreases s.len(),
{
    if s.len() == 0 {
        (seq![], seq![])
    } else {
        let st = split_state(s.drop_last(), c);
        if s.last() == c {
            (st.0.push(st.1), seq![])
        } else {
            (st.0, st.1.push(s.last()))
        }
    }
}

/// `s.split(c)`: the pieces between occurrences of `c`, empty ones included.
pub open spec fn split_on(s: Seq<char>, c: char) -> Seq<Seq<char>> {
    split_state(s, c).0.push(split_state(s, c).1)
}

/// Pieces closed so far, and the open piece, when `s` is split at each blank
/// line (`\n\n`, matched from the left without overlapping).
pub open spec fn block_state(s: Seq<char>) -> (Seq<Seq<char>>, Seq<char>)
    decreases s.len(),
{
    if s.len() == 0 {
        (seq![], seq![])
    } else {
        let st = block_state(s.drop_last());
        if s.last() == '\n' && st.1.len() > 0 && st.1.last() == '\n' {
            (st.0.push(st.1.drop_last()), seq![])
        } else {
            (st.0, st.1.push(s.last()))
        }
    }
}

/// `s.split("\n\n")`.
pub open spec fn blocks_of(s: Seq<char>) -> Seq<Seq<char>> {
    block_state(s).0.push(block_state(s).1)
}

/// The trimmed lines that are not blank.  (Splitting at `\n` and dropping
/// blank lines gives the same as `str::lines` followed by the same filter.)
pub open spec fn nonblank_lines(ls: Seq<Seq<char>>) -> Seq<Seq<char>>
    decreases ls.len(),
{
    if ls.len() == 0 {
        seq![]
    } else if trim(ls.last()).len() > 0 {
        nonblank_lines(ls.drop_last()).push(trim(ls.last()))
    } else {
        nonblank_lines(ls.drop_last())
    }
}

/// The first position from `i` on where `needle` occurs in `hay`.
pub open spec fn first_occurrence(hay: Seq<char>, needle: Seq<char>, i: int) -> Option<int>
    decreases hay.len() - i,
{
    if i < 0 || i >= hay.len() || i + needle.len() > hay.len() {
        None
    } else if hay.subrange(i, i + needle.len()) == needle {
        Some(i)
    } else {
        first_occurrence(hay, needle, i + 1)
    }
}

/// The first line from `i` on that contains `-->`.
pub open spec fn timing_line_from(ls: Seq<Seq<char>>, i: int) -> Option<int>
    decreases ls.len() - i,
{
    if i < 0 || i >= ls.len() {
        None
    } else if first_occurrence(ls[i], "-->"@, 0) is Some {
        Some(i)
    } else {
        timing_line_from(ls, i + 1)
    }
}

/// A subtitle time stamp taken apart: hours, minutes, and the seconds as
/// written (with `.` as the decimal separator).
#[derive(Clone, Debug, PartialEq)]
pub struct SubtitleTimestamp {
    pub hours: u64,
    pub minutes: u64,
    pub seconds: String,
}

/// `HH:MM:SS.mmm` or `MM:SS.mmm` (a `,` counts as `.`), after trimming: whole
/// hours and minutes, and the seconds as text.  Anything else, or hours or
/// minutes that are not `u64` numbers, is not a time stamp.
pub open spec fn timestamp_spec(value: Seq<char>) -> Option<(u64, u64, Seq<char>)> {
    let norm = trim(value).map_values(|c: char| if c == ',' { '.' } else { c });
    let parts = split_on(norm, ':');
    if parts.len() == 2 {
        match crate::number::u64_from_str(parts[0]) {
            Some(m) => Some((0u64, m, parts[1])),
            None => None,
        }
    } else if parts.len() == 3 {
        match (crate::number::u64_from_str(parts[0]), crate::number::u64_from_str(parts[1])) {
            (Some(h), Some(m)) => Some((h, m, parts[2])),
            _ => None,
        }
    } else {
        None
    }
}

proof fn lemma_split_state_piece(x: Seq<char>, w: Seq<char>, c: char)
    requires
        forall|k: int| 0 <= k < w.len() ==> w[k] != c,
    ensures
        split_state(x + w, c) == (split_state(x, c).0, split_state(x, c).1 + w),
    decreases w.len(),
{
    if w.len() == 0 {
        assert(x + w =~= x);
        assert(split_state(x, c).1 + w =~= split_state(x, c).1);
    } else {
        let w0 = w.drop_last();
        lemma_split_state_piece(x, w0, c);
        assert((x + w).drop_last() =~= x + w0);
        assert((x + w).last() == w.last());
        assert(split_state(x, c).1 + w =~= (split_state(x, c).1 + w0).push(w.last()));
    }
}

/// Splitting `a:b:s` at `:` gives its three pieces when none holds a `:`.
proof fn lemma_split_three(a: Seq<char>, b: Seq<char>, t: Seq<char>)
    requires
        forall|k: int| 0 <= k < a.len() ==> a[k] != ':',
        forall|k: int| 0 <= k < b.len() ==> b[k] != ':',
        forall|k: int| 0 <= k < t.len() ==> t[k] != ':',
    ensures
        split_on(a + seq![':'] + b + seq![':'] + t, ':') == seq![a, b, t],
{
    let e = Seq::<char>::empty();
    lemma_split_state_piece(e, a, ':');
    assert(e + a =~= a);
    assert(split_state(e, ':') == (Seq::<Seq<char>>::empty(), e));
    let x1 = a.push(':');
    assert(x1.drop_last() =~= a);
    assert(split_state(x1, ':') == (seq![a], e));
    lemma_split_state_piece(x1, b, ':');
    let x2 = (x1 + b).push(':');
    assert(x2.drop_last() =~= x1 + b);
    assert(e + b =~= b);
    assert(split_state(x2, ':') == (seq![a, b], e));
    lemma_split_state_piece(x2, t, ':');
    assert(e + t =~= t);
    assert(a + seq![':'] + b + seq![':'] + t =~= x2 + t);
    assert(split_on(x2 + t, ':') =~= seq![a, b, t]);
}

/// A three-field time stamp `H:M:S` reads as hours `H`, minutes `M` and
/// seconds text `S`: for the decimal texts of any `u64` hours and minutes
/// and a seconds text without white space, `:` or `,`, the time stamp is
/// exactly those three.
pub proof fn lemma_timestamp_fields(h: u64, m: u64, seconds: Seq<char>)
    requires
        forall|k: int| 0 <= k < seconds.len() ==> {
            &&& !crate::text::is_ws(#[trigger] seconds[k])
            &&& seconds[k] != ':'
            &&& seconds[k] != ','
        },
    ensures
        timestamp_spec(
            crate::text::decimal(h as nat) + seq![':'] + crate::text::decimal(m as nat) + seq![':']
                + seconds,
        ) == Some((h, m, seconds)),
{
    let dh = crate::text::decimal(h as nat);
    let dm = crate::text::decimal(m as nat);
    crate::number::lemma_decimal_digits(h as nat);
    crate::number::lemma_decimal_digits(m as nat);
    crate::number::lemma_u64_decimal_round_trip(h);
    crate::number::lemma_u64_decimal_round_trip(m);
    let v = dh + seq![':'] + dm + seq![':'] + seconds;
    assert forall|k: int| 0 <= k < dh.len() implies dh[k] != ':' && dh[k] != ',' && !crate::text::is_ws(dh[k]) by {
        assert(crate::text::is_ascii_digit(dh[k]));
    }
    assert forall|k: int| 0 <= k < dm.len() implies dm[k] != ':' && dm[k] != ',' by {
        assert(crate::text::is_ascii_digit(dm[k]));
    }
    // No white space at either end: trimming keeps the text.
    assert(v[0] == dh[0]);
    assert(!crate::text::is_ws(v[0]));
    assert(crate::text::trim_start(v) == v);
    if seconds.len() > 0 {
        assert(v.last() == seconds.last());
    } else {
        assert(v.last() == ':');
    }
    assert(crate::text::trim_end(v) == v);
    assert(trim(v) == v);
    // No comma to turn into a point.
    assert forall|k: int| 0 <= k < v.len() implies v[k] != ',' by {
        if k < dh.len() {
            assert(v[k] == dh[k]);
        } else if k == dh.len() {
        } else if k < dh.len() + 1 + dm.len() {
            assert(v[k] == dm[k - dh.len() - 1]);
        } else if k == dh.len() + 1 + dm.len() {
        } else {
            assert(v[k] == seconds[k - dh.len() - 2 - dm.len()]);
        }
    }
    assert(v.map_values(|c: char| if c == ',' { '.' } else { c }) =~= v);
    lemma_split_three(dh, dm, seconds);
}

/// A two-field time stamp `M:S` reads as no hours, minutes `M` and seconds
/// text `S`.
pub proof fn lemma_timestamp_minutes_seconds(m: u64, seconds: Seq<char>)
    requires
        forall|k: int| 0 <= k < seconds.len() ==> {
            &&& !crate::text::is_ws(#[trigger] seconds[k])
            &&& seconds[k] != ':'
            &&& seconds[k] != ','
        },
    ensures
        timestamp_spec(crate::text::decimal(m as nat) + seq![':'] + seconds) == Some(
            (0u64, m, seconds),
        ),
{
    let dm = crate::text::decimal(m as nat);
    crate::number::lemma_decimal_digits(m as nat);
    crate::number::lemma_u64_decimal_round_trip(m);
    let v = dm + seq![':'] + seconds;
    assert forall|k: int| 0 <= k < dm.len() implies dm[k] != ':' && dm[k] != ',' by {
        assert(crate::text::is_ascii_digit(dm[k]));
    }
    assert(v[0] == dm[0]);
    assert(crate::text::is_ascii_digit(dm[0]));
    assert(crate::text::trim_start(v) == v);
    if seconds.len() > 0 {
        assert(v.last() == seconds.last());
    } else {
        assert(v.last() == ':');
    }
    assert(crate::text::trim_end(v) == v);
    assert forall|k: int| 0 <= k < v.len() implies v[k] != ',' by {
        if k < dm.len() {
            assert(v[k] == dm[k]);
        } else if k > dm.len() {
            assert(v[k] == seconds[k - dm.len() - 1]);
        }
    }
    assert(v.map_values(|c: char| if c == ',' { '.' } else { c }) =~= v);
    let e = Seq::<char>::empty();
    lemma_split_state_piece(e, dm, ':');
    assert(e + dm =~= dm);
    let x1 = dm.push(':');
    assert(x1.drop_last() =~= dm);
    assert(split_state(x1, ':') == (seq![dm], e));
    lemma_split_state_piece(x1, seconds, ':');
    assert(e + seconds =~= seconds);
    assert(v =~= x1 + seconds);
    assert(split_on(v, ':') =~= seq![dm, seconds]);
}

/// A cue: its two time stamps and its text.
#[derive(Clone, Debug, PartialEq)]
pub struct VttCue {
    pub start: SubtitleTimestamp,
    pub end: SubtitleTimestamp,
    pub text: String,
}

pub open spec fn timestamp_view(t: SubtitleTimestamp) -> (u64, u64, Seq<char>) {
    (t.hours, t.minutes, t.seconds@)
}

pub open spec fn cue_view(c: VttCue) -> ((u64, u64, Seq<char>), (u64, u64, Seq<char>), Seq<char>) {
    (timestamp_view(c.start), timestamp_view(c.end), c.text@)
}

/// The cue of one block of non-blank lines: its first line holding `-->`
/// gives the start (before the arrow) and the end (the first word after it);
/// the lines after it, joined and with white space collapsed, give the text.
/// Blocks without such a line, with a malformed time stamp or without text
/// give no cue.
pub open spec fn cue_spec(ls: Seq<Seq<char>>) -> Option<
    ((u64, u64, Seq<char>), (u64, u64, Seq<char>), Seq<char>),
> {
    match timing_line_from(ls, 0) {
        None => None,
        Some(ti) => {
            let tl = ls[ti];
            let p = first_occurrence(tl, "-->"@, 0)->Some_0;
            let after_words = words(tl.skip(p + 3));
            if after_words.len() == 0 {
                None
            } else {
                match (timestamp_spec(tl.take(p)), timestamp_spec(after_words[0])) {
                    (Some(a), Some(b)) => {
                        let text = collapse_ws(join(ls.skip(ti + 1), seq![' ']));
                        if text.len() == 0 {
                            None
                        } else {
                            Some((a, b, text))
                        }
                    },
                    _ => None,
                }
            }
        },
    }
}

proof fn lemma_first_occurrence_skips(hay: Seq<char>, needle: Seq<char>, i: int, k: int)
    requires
        0 <= i <= k,
        needle.len() > 0,
        forall|j: int| i <= j < k ==> #[trigger] hay[j] != needle[0],
        k + needle.len() <= hay.len(),
    ensures
        first_occurrence(hay, needle, i) == first_occurrence(hay, needle, k),
    decreases k - i,
{
    if i < k {
        assert(hay.subrange(i, i + needle.len())[0] == hay[i]);
        lemma_first_occurrence_skips(hay, needle, i + 1, k);
    }
}

/// A cue block reads as written: a first line `A --> B` (time stamps without
/// white space or `-`), then text lines, gives the cue from `A` to `B` whose
/// text is the text lines joined, white space collapsed.
pub proof fn lemma_cue_block(a: Seq<char>, b: Seq<char>, rest: Seq<Seq<char>>)
    requires
        a.len() > 0,
        b.len() > 0,
        forall|k: int| 0 <= k < a.len() ==> !crate::text::is_ws(#[trigger] a[k]) && a[k] != '-',
        forall|k: int| 0 <= k < b.len() ==> !crate::text::is_ws(#[trigger] b[k]) && b[k] != '-',
        timestamp_spec(a) is Some,
        timestamp_spec(b) is Some,
        collapse_ws(join(rest, seq![' '])).len() > 0,
    ensures
        cue_spec(seq![a + " --> "@ + b] + rest) == Some(
            (
                timestamp_spec(a)->Some_0,
                timestamp_spec(b)->Some_0,
                collapse_ws(join(rest, seq![' '])),
            ),
        ),
{
    reveal_strlit(" --> ");
    reveal_strlit("-->");
    let tl = a + " --> "@ + b;
    let ls = seq![tl] + rest;
    assert(ls[0] == tl);
    let p: int = a.len() as int + 1;
    assert forall|j: int| 0 <= j < p implies #[trigger] tl[j] != "-->"@[0] by {
        if j < a.len() {
            assert(tl[j] == a[j]);
        }
    }
    lemma_first_occurrence_skips(tl, "-->"@, 0, p);
    assert(tl.subrange(p, p + 3) =~= "-->"@);
    assert(first_occurrence(tl, "-->"@, 0) == Some(p));
    assert(timing_line_from(ls, 0) == Some(0int));
    // What follows the arrow is one word, `b`.
    assert(tl.skip(p + 3) =~= Seq::<char>::empty().push(' ') + b);
    assert(words(Seq::<char>::empty()) =~= Seq::<Seq<char>>::empty());
    assert(crate::text::is_word(b));
    crate::text::lemma_words_after_space(Seq::<char>::empty(), b);
    assert(words(tl.skip(p + 3)) =~= seq![b]);
    // Before the arrow: `a` and a space, which trimming drops.
    let before = tl.take(p);
    assert(before =~= a.push(' '));
    assert(crate::text::trim_start(before) == before) by {
        assert(before[0] == a[0]);
    }
    assert(before.drop_last() =~= a);
    assert(crate::text::trim_end(before) == crate::text::trim_end(a));
    assert(crate::text::trim_end(a) == a) by {
        assert(a.last() == a[a.len() - 1]);
    }
    assert(crate::text::trim_start(a) == a) by {
        assert(!crate::text::is_ws(a[0]));
    }
    assert(trim(before) == trim(a));
    assert(ls.skip(1) =~= rest);
}

/// The cues of a sequence of blocks, in order.
pub open spec fn cues_of_blocks(bs: Seq<Seq<char>>) -> Seq<
    ((u64, u64, Seq<char>), (u64, u64, Seq<char>), Seq<char>),
>
    decreases bs.len(),
{
    if bs.len() == 0 {
        seq![]
    } else {
        match cue_spec(nonblank_lines(split_on(bs.last(), '\n'))) {
            Some(c) => cues_of_blocks(bs.drop_last()).push(c),
            None => cues_of_blocks(bs.drop_last()),
        }
    }
}

/// The cues of a WebVTT document: line breaks made uniform, blocks split at
/// blank lines, and each block read by `cue_spec`.
pub open spec fn vtt_cues_spec(contents: Seq<char>) -> Seq<
    ((u64, u64, Seq<char>), (u64, u64, Seq<char>), Seq<char>),
> {
    cues_of_blocks(blocks_of(normalize_newlines(contents)))
}

} // verus!

verus! {

fn normalize_newlines_exec(v: &[char]) -> (r: Vec<char>)
    ensures
        r@ == normalize_newlines(v@),
{
    let mut out: Vec<char> = Vec::new();
    let mut i: usize = 0;
    assert(v@.skip(0) == v@);
    while i < v.len()
        invariant
            i <= v.len(),
            out@ + normalize_newlines(v@.skip(i as int)) == normalize_newlines(v@),
        decreases v.len() - i,
    {
        let ghost rest = v@.skip(i as int);
        assert(rest.drop_first() == v@.skip(i + 1));
        if v[i] == '\r' && i + 1 < v.len() && v[i + 1] == '\n' {
            assert(rest[1] == v@[i + 1]);
        } else if v[i] == '\r' {
            let ghost before = out@;
            out.push('\n');
            assert(before + normalize_newlines(rest) == out@ + normalize_newlines(rest.drop_first()));
        } else {
            let ghost before = out@;
            out.push(v[i]);
            assert(before + normalize_newlines(rest) == out@ + normalize_newlines(rest.drop_first()));
        }
        i = i + 1;
    }
    assert(normalize_newlines(v@.skip(v.len() as int)) == Seq::<char>::empty());
    assert(out@ + Seq::<char>::empty() == out@);
    out
}

fn split_char(v: &[char], c: char) -> (r: Vec<Vec<char>>)
    ensures
        crate::text::views(r@) == split_on(v@, c),
{
    let mut acc: Vec<Vec<char>> = Vec::new();
    let mut cur: Vec<char> = Vec::new();
    let mut i: usize = 0;
    while i < v.len()
        invariant
            i <= v.len(),
            crate::text::views(acc@) == split_state(v@.take(i as int), c).0,
            cur@ == split_state(v@.take(i as int), c).1,
        decreases v.len() - i,
    {
        assert(v@.take(i + 1).drop_last() == v@.take(i as int));
        if v[i] == c {
            let ghost before = acc@;
            acc.push(cur);
            cur = Vec::new();
            assert(crate::text::views(acc@) == crate::text::views(before).push(acc@.last()@));
        } else {
            cur.push(v[i]);
        }
        i = i + 1;
    }
    assert(v@.take(v.len() as int) == v@);
    let ghost before = acc@;
    acc.push(cur);
    assert(crate::text::views(acc@) == crate::text::views(before).push(acc@.last()@));
    acc
}

fn split_blocks(v: &[char]) -> (r: Vec<Vec<char>>)
    ensures
        crate::text::views(r@) == blocks_of(v@),
{
    let mut acc: Vec<Vec<char>> = Vec::new();
    let mut cur: Vec<char> = Vec::new();
    let mut i: usize = 0;
    while i < v.len()
        invariant
            i <= v.len(),
            crate::text::views(acc@) == block_state(v@.take(i as int)).0,
            cur@ == block_state(v@.take(i as int)).1,
        decreases v.len() - i,
    {
        assert(v@.take(i + 1).drop_last() == v@.take(i as int));
        let n = cur.len();
        if v[i] == '\n' && n > 0 && cur[n - 1] == '\n' {
            cur.pop();
            let ghost before = acc@;
            acc.push(cur);
            cur = Vec::new();
            assert(crate::text::views(acc@) == crate::text::views(before).push(acc@.last()@));
        } else {
            cur.push(v[i]);
        }
        i = i + 1;
    }
    assert(v@.take(v.len() as int) == v@);
    let ghost before = acc@;
    acc.push(cur);
    assert(crate::text::views(acc@) == crate::text::views(before).push(acc@.last()@));
    acc
}

fn nonblank_lines_exec(ls: &Vec<Vec<char>>) -> (r: Vec<Vec<char>>)
    ensures
        crate::text::views(r@) == nonblank_lines(crate::text::views(ls@)),
{
    let mut out: Vec<Vec<char>> = Vec::new();
    let mut i: usize = 0;
    while i < ls.len()
        invariant
            i <= ls.len(),
            crate::text::views(out@) == nonblank_lines(crate::text::views(ls@).take(i as int)),
        decreases ls.len() - i,
    {
        let ghost pre = crate::text::views(ls@).take(i as int);
        assert(crate::text::views(ls@).take(i + 1).drop_last() == pre);
        assert(crate::text::views(ls@).take(i + 1).last() == ls@[i as int]@);
        let t = trim_chars(ls[i].as_slice());
        if t.len() > 0 {
            let ghost before = out@;
            out.push(t);
            assert(crate::text::views(out@) == crate::text::views(before).push(out@.last()@));
        }
        i = i + 1;
    }
    assert(crate::text::views(ls@).take(ls.len() as int) == crate::text::views(ls@));
    out
}

fn matches_at(hay: &[char], needle: &[char], i: usize) -> (r: bool)
    requires
        i + needle.len() <= hay.len(),
    ensures
        r == (hay@.subrange(i as int, i + needle.len()) == needle@),
{
    let mut k: usize = 0;
    while k < needle.len()
        invariant
            i + needle.len() <= hay.len(),
            k <= needle.len(),
            forall|m: int| 0 <= m < k ==> hay@[i + m] == needle@[m],
        decreases needle.len() - k,
    {
        if hay[i + k] != needle[k] {
            assert(hay@.subrange(i as int, i + needle.len())[k as int] != needle@[k as int]);
            return false;
        }
        k = k + 1;
    }
    assert(hay@.subrange(i as int, i + needle.len()) == needle@);
    true
}

fn find_first(hay: &[char], needle: &[char]) -> (r: Option<usize>)
    ensures
        match r {
            Some(p) => first_occurrence(hay@, needle@, 0) == Some(p as int),
            None => first_occurrence(hay@, needle@, 0) is None,
        },
{
    let mut i: usize = 0;
    while i < hay.len() && needle.len() <= hay.len() - i
        invariant
            i <= hay.len(),
            first_occurrence(hay@, needle@, 0) == first_occurrence(hay@, needle@, i as int),
        decreases hay.len() - i,
    {
        if matches_at(hay, needle, i) {
            return Some(i);
        }
        i = i + 1;
    }
    None
}

fn parse_timestamp(value: &[char]) -> (r: Option<SubtitleTimestamp>)
    ensures
        match r {
            Some(t) => timestamp_spec(value@) == Some(timestamp_view(t)),
            None => timestamp_spec(value@) is None,
        },
{
    let t = trim_chars(value);
    let mut norm: Vec<char> = Vec::new();
    let mut i: usize = 0;
    while i < t.len()
        invariant
            i <= t.len(),
            norm@ == t@.take(i as int).map_values(|c: char| if c == ',' { '.' } else { c }),
        decreases t.len() - i,
    {
        let c = t[i];
        norm.push(if c == ',' { '.' } else { c });
        i = i + 1;
        assert(t@.take(i as int).map_values(|c: char| if c == ',' { '.' } else { c }) == t@.take(
            i - 1,
        ).map_values(|c: char| if c == ',' { '.' } else { c }).push(if t@[i - 1] == ',' {
            '.'
        } else {
            t@[i - 1]
        }));
    }
    assert(t@.take(t.len() as int) == t@);
    let parts = split_char(norm.as_slice(), ':');
    assert(parts@.len() == crate::text::views(parts@).len());
    if parts.len() == 2 {
        assert(crate::text::views(parts@)[0] == parts@[0]@);
        assert(crate::text::views(parts@)[1] == parts@[1]@);
        match parse_u64(parts[0].as_slice()) {
            Some(m) => Some(
                SubtitleTimestamp { hours: 0, minutes: m, seconds: string_of(parts[1].as_slice()) },
            ),
            None => None,
        }
    } else if parts.len() == 3 {
        assert(crate::text::views(parts@)[0] == parts@[0]@);
        assert(crate::text::views(parts@)[1] == parts@[1]@);
        assert(crate::text::views(parts@)[2] == parts@[2]@);
        let h = parse_u64(parts[0].as_slice());
        let m = parse_u64(parts[1].as_slice());
        match (h, m) {
            (Some(h), Some(m)) => Some(
                SubtitleTimestamp { hours: h, minutes: m, seconds: string_of(parts[2].as_slice()) },
            ),
            _ => None,
        }
    } else {
        None
    }
}

fn timing_line(ls: &Vec<Vec<char>>, arrow: &Vec<char>) -> (r: Option<usize>)
    requires
        arrow@ == "-->"@,
    ensures
        match r {
            Some(i) => timing_line_from(crate::text::views(ls@), 0) == Some(i as int) && i
                < ls.len(),
            None => timing_line_from(crate::text::views(ls@), 0) is None,
        },
{
    let ghost lv = crate::text::views(ls@);
    let mut i: usize = 0;
    while i < ls.len()
        invariant
            i <= ls.len(),
            arrow@ == "-->"@,
            lv == crate::text::views(ls@),
            timing_line_from(lv, 0) == timing_line_from(lv, i as int),
        decreases ls.len() - i,
    {
        assert(lv[i as int] == ls@[i as int]@);
        if find_first(ls[i].as_slice(), arrow.as_slice()).is_some() {
            return Some(i);
        }
        i = i + 1;
    }
    None
}

fn cue_of_lines(ls: &Vec<Vec<char>>) -> (r: Option<VttCue>)
    ensures
        match r {
            Some(c) => cue_spec(crate::text::views(ls@)) == Some(cue_view(c)),
            None => cue_spec(crate::text::views(ls@)) is None,
        },
{
    let ghost lv = crate::text::views(ls@);
    let arrow = chars_of("-->");
    let ti = match timing_line(ls, &arrow) {
        None => return None,
        Some(ti) => ti,
    };
    let tl = &ls[ti];
    assert(lv[ti as int] == tl@);
    proof {
        lemma_timing_line_found(lv, 0);
    }
    let p = match find_first(tl.as_slice(), arrow.as_slice()) {
        Some(p) => p,
        None => {
            assert(false);
            return None;
        },
    };
    proof {
        reveal_strlit("-->");
    }
    assert(p + 3 <= tl.len()) by {
        assert(first_occurrence(tl@, "-->"@, 0) == Some(p as int));
        lemma_first_occurrence_fits(tl@, "-->"@, 0);
    }
    let after = crate::text::suffix_from(tl.as_slice(), p + 3);
    assert(after@ == tl@.skip(p + 3));
    assert("-->"@.len() == 3);
    let after_words = crate::text::split_ws(after.as_slice());
    if after_words.len() == 0 {
        return None;
    }
    assert(crate::text::views(after_words@)[0] == after_words@[0]@);
    let before = crate::text::slice_chars(tl.as_slice(), 0, p);
    assert(before@ == tl@.take(p as int));
    let start = parse_timestamp(before.as_slice());
    let end = parse_timestamp(after_words[0].as_slice());
    match (start, end) {
        (Some(a), Some(b)) => {
            let mut rest: Vec<Vec<char>> = Vec::new();
            let mut k: usize = ti + 1;
            while k < ls.len()
                invariant
                    ti < ls.len(),
                    ti + 1 <= k <= ls.len(),
                    lv == crate::text::views(ls@),
                    crate::text::views(rest@) == lv.subrange(ti + 1, k as int),
                decreases ls.len() - k,
            {
                let ghost prev = rest@;
                rest.push(ls[k].clone());
                assert(crate::text::views(rest@) == crate::text::views(prev).push(ls@[k as int]@));
                k = k + 1;
                assert(lv.subrange(ti + 1, k as int) == lv.subrange(ti + 1, k - 1).push(
                    lv[k - 1],
                ));
            }
            assert(lv.subrange(ti + 1, ls.len() as int) == lv.skip(ti + 1));
            proof {
                reveal_strlit(" ");
            }
            assert(" "@ == seq![' ']);
            let joined = crate::text::join_chars(&rest, " ");
            let text = collapse_whitespace(joined.as_str());
            if text.as_str().is_empty() {
                None
            } else {
                Some(VttCue { start: a, end: b, text })
            }
        },
        _ => None,
    }
}

proof fn lemma_timing_line_found(ls: Seq<Seq<char>>, i: int)
    ensures
        timing_line_from(ls, i) matches Some(j) ==> i <= j < ls.len() && first_occurrence(
            ls[j],
            "-->"@,
            0,
        ) is Some,
    decreases ls.len() - i,
{
    if !(i < 0 || i >= ls.len()) && first_occurrence(ls[i], "-->"@, 0) is None {
        lemma_timing_line_found(ls, i + 1);
    }
}

proof fn lemma_first_occurrence_fits(hay: Seq<char>, needle: Seq<char>, i: int)
    ensures
        first_occurrence(hay, needle, i) matches Some(p) ==> p + needle.len() <= hay.len() && p
            >= i,
    decreases hay.len() - i,
{
    if !(i < 0 || i >= hay.len() || i + needle.len() > hay.len()) {
        if hay.subrange(i, i + needle.len()) != needle {
            lemma_first_occurrence_fits(hay, needle, i + 1);
        }
    }
}

/// The cues of a WebVTT document (see `vtt_cues_spec`): headers, cue
/// identifiers and cue settings are dropped, and the text of each cue has its
/// white space collapsed.
pub fn vtt_cues(contents: &str) -> (r: Vec<VttCue>)
    ensures
        r@.map_values(|c: VttCue| cue_view(c)) == vtt_cues_spec(contents@),
{
    let v = chars_of(contents);
    let norm = normalize_newlines_exec(v.as_slice());
    let blocks = split_blocks(norm.as_slice());
    let ghost bv = crate::text::views(blocks@);
    let mut out: Vec<VttCue> = Vec::new();
    let mut i: usize = 0;
    while i < blocks.len()
        invariant
            i <= blocks.len(),
            bv == crate::text::views(blocks@),
            out@.map_values(|c: VttCue| cue_view(c)) == cues_of_blocks(bv.take(i as int)),
        decreases blocks.len() - i,
    {
        assert(bv.take(i + 1).drop_last() == bv.take(i as int));
        assert(bv.take(i + 1).last() == blocks@[i as int]@);
        let pieces = split_char(blocks[i].as_slice(), '\n');
        let lines = nonblank_lines_exec(&pieces);
        match cue_of_lines(&lines) {
            Some(c) => {
                let ghost before = out@;
                out.push(c);
                assert(out@.map_values(|c: VttCue| cue_view(c)) == before.map_values(
                    |c: VttCue| cue_view(c),
                ).push(cue_view(out@.last())));
            },
            None => {},
        }
        i = i + 1;
    }
    assert(bv.take(blocks.len() as int) == bv);
    out
}

} // verus!

verus! {

// ---------------------------------------------------------------------------
// Timed subtitle text
// ---------------------------------------------------------------------------

/// A piece of subtitle text with its start and end in seconds, when they
/// could be read.
#[derive(Clone, Debug, PartialEq)]
pub struct TimedText {
    pub start_s: Option<Binary64>,
    pub end_s: Option<Binary64>,
    pub text: String,
}

/// The segment of a timed text: kept when both times are known, the text is
/// not empty, and it does not end at or before its start.
pub open spec fn timed_segment_spec(t: TimedText) -> Option<SegmentSpec> {
    match (t.start_s, t.end_s) {
        (Some(s), Some(e)) => if t.text@.len() > 0 && !ieee_le(e.bits, s.bits) {
            Some(SegmentSpec { start: s.bits, end: e.bits, text: t.text@, speaker: None })
        } else {
            None
        },
        _ => None,
    }
}

pub open spec fn timed_segments_spec(ts: Seq<TimedText>) -> Seq<SegmentSpec>
    decreases ts.len(),
{
    if ts.len() == 0 {
        seq![]
    } else {
        match timed_segment_spec(ts.last()) {
            Some(s) => timed_segments_spec(ts.drop_last()).push(s),
            None => timed_segments_spec(ts.drop_last()),
        }
    }
}

/// Whether a timed text becomes a segment, stated on its own: it has both
/// times, non-empty text, and ends after it starts.
pub open spec fn becomes_segment(t: TimedText) -> bool {
    &&& t.start_s is Some
    &&& t.end_s is Some
    &&& t.text@.len() > 0
    &&& !ieee_le(t.end_s->Some_0.bits, t.start_s->Some_0.bits)
}

/// The segments read from subtitles are the timed texts that have both
/// times, non-empty text and a positive length, in order, each with its
/// times and text and no speaker.
pub proof fn lemma_timed_segments_kept(ts: Seq<TimedText>)
    ensures
        ({
            let kept = ts.filter(|t: TimedText| becomes_segment(t));
            &&& timed_segments_spec(ts).len() == kept.len()
            &&& forall|k: int| 0 <= k < kept.len() ==> #[trigger] timed_segments_spec(ts)[k] == (
            SegmentSpec {
                start: kept[k].start_s->Some_0.bits,
                end: kept[k].end_s->Some_0.bits,
                text: kept[k].text@,
                speaker: None,
            })
        }),
    decreases ts.len(),
{
    reveal(Seq::filter);
    if ts.len() > 0 {
        lemma_timed_segments_kept(ts.drop_last());
        let prev = ts.drop_last().filter(|t: TimedText| becomes_segment(t));
        let kept = ts.filter(|t: TimedText| becomes_segment(t));
        if becomes_segment(ts.last()) {
            assert(kept == prev.push(ts.last()));
            assert forall|k: int| 0 <= k < kept.len() implies #[trigger] timed_segments_spec(ts)[k]
                == (SegmentSpec {
                start: kept[k].start_s->Some_0.bits,
                end: kept[k].end_s->Some_0.bits,
                text: kept[k].text@,
                speaker: None,
            }) by {
                if k < prev.len() {
                    assert(timed_segments_spec(ts)[k] == timed_segments_spec(ts.drop_last())[k]);
                }
            }
        } else {
            assert(kept == prev);
        }
    } else {
        assert(ts.filter(|t: TimedText| becomes_segment(t)) =~= Seq::<TimedText>::empty());
    }
}

/// The transcript segments of subtitle cues, in order (see
/// `timed_segment_spec`).
pub fn timed_segments(items: &Vec<TimedText>) -> (r: Vec<TranscriptSegment>)
    ensures
        segments_view(r@) == timed_segments_spec(items@),
{
    let mut out: Vec<TranscriptSegment> = Vec::new();
    let mut i: usize = 0;
    while i < items.len()
        invariant
            i <= items.len(),
            segments_view(out@) == timed_segments_spec(items@.take(i as int)),
        decreases items.len() - i,
    {
        assert(items@.take(i + 1).drop_last() == items@.take(i as int));
        assert(items@.take(i + 1).last() == items@[i as int]);
        let it = &items[i];
        match (it.start_s, it.end_s) {
            (Some(s), Some(e)) => {
                if !it.text.as_str().is_empty() && !e.le(s) {
                    let ghost before = out@;
                    out.push(
                        TranscriptSegment {
                            start_s: s,
                            end_s: e,
                            text: it.text.clone(),
                            speaker: None,
                        },
                    );
                    assert(segments_view(out@) == segments_view(before).push(out@.last()@));
                }
            },
            _ => {},
        }
        i = i + 1;
    }
    assert(items@.take(items.len() as int) == items@);
    out
}

// ---------------------------------------------------------------------------
// json3 subtitles
// ---------------------------------------------------------------------------

/// One text run of a json3 caption event.
#[derive(Clone, Debug, PartialEq)]
pub struct Json3CaptionSegment {
    pub utf8: Option<String>,
}

/// Whether a text run is kept: it is not blank.
pub open spec fn run_kept(s: Seq<char>) -> bool {
    trim(s).len() > 0 && trim(s) != "\n"@
}

/// The kept text runs concatenated.
pub open spec fn kept_runs(segs: Seq<Json3CaptionSegment>) -> Seq<char>
    decreases segs.len(),
{
    if segs.len() == 0 {
        seq![]
    } else {
        kept_runs(segs.drop_last()) + match segs.last().utf8 {
            Some(s) => if run_kept(s@) {
                s@
            } else {
                seq![]
            },
            None => seq![],
        }
    }
}

/// The text of a json3 caption event: its non-blank text runs concatenated,
/// with white space collapsed.
pub open spec fn json3_text_spec(segs: Option<Seq<Json3CaptionSegment>>) -> Seq<char> {
    collapse_ws(
        match segs {
            Some(v) => kept_runs(v),
            None => seq![],
        },
    )
}

/// The text of a json3 caption event (see `json3_text_spec`).
pub fn json3_event_text(segs: &Option<Vec<Json3CaptionSegment>>) -> (r: String)
    ensures
        r@ == json3_text_spec(
            match segs {
                Some(v) => Some(v@),
                None => None,
            },
        ),
{
    let mut joined = String::new();
    match segs {
        Some(v) => {
            let mut i: usize = 0;
            while i < v.len()
                invariant
                    i <= v.len(),
                    joined@ == kept_runs(v@.take(i as int)),
                decreases v.len() - i,
            {
                assert(v@.take(i + 1).drop_last() == v@.take(i as int));
                assert(v@.take(i + 1).last() == v@[i as int]);
                match &v[i].utf8 {
                    Some(s) => {
                        let t = trim_str(s.as_str());
                        proof {
                            reveal_strlit("\n");
                        }
                        assert("\n"@ == seq!['\n']);
                        let is_newline = t.len() == 1 && t[0] == '\n';
                        if is_newline {
                            assert(t@ =~= seq!['\n']);
                        }
                        assert(is_newline == (t@ == "\n"@));
                        if t.len() > 0 && !is_newline {
                            append_str(&mut joined, s.as_str());
                        }
                    },
                    None => {},
                }
                i = i + 1;
            }
            assert(v@.take(v.len() as int) == v@);
        },
        None => {},
    }
    collapse_whitespace(joined.as_str())
}

// ---------------------------------------------------------------------------
// What yt-dlp reports
// ---------------------------------------------------------------------------

/// The last non-blank line, trimmed.
pub open spec fn last_nonblank_line(text: Seq<char>) -> Option<Seq<char>> {
    let ls = nonblank_lines(split_on(text, '\n'));
    if ls.len() == 0 {
        None
    } else {
        Some(ls.last())
    }
}

/// The path of the downloaded file that `yt-dlp --print after_move:filepath`
/// reports on its standard output: its last non-blank line, trimmed.
pub fn reported_audio_path(stdout: &Vec<u8>) -> (r: Option<String>)
    ensures
        crate::paths::opt_chars(r) == last_nonblank_line(crate::text::utf8_lossy(stdout@)),
{
    let text = crate::text::decode_utf8_lossy(stdout.as_slice());
    let v = chars_of(text.as_str());
    let pieces = split_char(v.as_slice(), '\n');
    let lines = nonblank_lines_exec(&pieces);
    let n = lines.len();
    if n == 0 {
        None
    } else {
        assert(crate::text::views(lines@).last() == lines@[n - 1]@);
        Some(string_of(lines[n - 1].as_slice()))
    }
}

/// The command that runs `yt-dlp`: `yt-dlp` itself when it answers
/// `--version`, else `uvx yt-dlp` when that does, else `yt-dlp` (so that the
/// error names it).  Returns the program and the arguments that come first.
pub fn yt_dlp_invocation(direct_works: bool, uvx_works: bool) -> (r: (String, Vec<String>))
    ensures
        if !direct_works && uvx_works {
            r.0@ == "uvx"@ && string_views(r.1@) == seq!["yt-dlp"@]
        } else {
            r.0@ == "yt-dlp"@ && r.1@.len() == 0
        },
{
    if !direct_works && uvx_works {
        let mut prefix: Vec<String> = Vec::new();
        prefix.push("yt-dlp".to_string());
        assert(string_views(prefix@) == seq![prefix@[0]@]);
        ("uvx".to_string(), prefix)
    } else {
        ("yt-dlp".to_string(), Vec::new())
    }
}

/// The error for a failed `yt-dlp` run: `yt-dlp failed while <doing> <url>: `
/// followed by its trimmed error output.
pub fn yt_dlp_failure(doing: &str, url: &str, stderr: &Vec<u8>) -> (r: String)
    ensures
        r@ == "yt-dlp failed while "@ + doing@ + " "@ + url@ + ": "@ + trim(
            crate::text::utf8_lossy(stderr@),
        ),
{
    let mut m = String::from_str("yt-dlp failed while ");
    append_str(&mut m, doing);
    append_str(&mut m, " ");
    append_str(&mut m, url);
    append_str(&mut m, ": ");
    let text = crate::text::decode_utf8_lossy(stderr.as_slice());
    let t = trim_str(text.as_str());
    crate::text::append_chars(&mut m, t.as_slice());
    m
}

} // verus!
