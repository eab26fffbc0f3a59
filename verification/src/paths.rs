//! Default output file names: next to a local recording, or in the current
//! directory under a sanitised title for remote media.

use vstd::prelude::*;

use crate::text::{append_str, chars_of, is_ascii_alnum, push_char, trim, trim_str};
use crate::types::{InputSource, OutputFormat, SubtitleFormat};

verus! {

// ---------------------------------------------------------------------------
// Paths, through std::path
// ---------------------------------------------------------------------------

/// Name for the stem that `Path::file_stem` finds in a path written as text
/// (the file name without its last extension), or none.  It depends on the
/// path alone.
pub uninterp spec fn path_file_stem(path: Seq<char>) -> Option<Seq<char>>;

/// Name for the directory part that `Path::parent` finds in a path written as
/// text, or none for a root or an empty path.  It depends on the path alone.
pub uninterp spec fn path_parent(path: Seq<char>) -> Option<Seq<char>>;

/// Name for the text of `Path::join(base, name)`.  It depends on the two
/// arguments alone.
pub uninterp spec fn path_join(base: Seq<char>, name: Seq<char>) -> Seq<char>;

pub open spec fn opt_chars(o: Option<String>) -> Option<Seq<char>> {
    match o {
        Some(s) => Some(s@),
        None => None,
    }
}

/// `Path::file_stem` on a path given as text.  The contract only names the
/// result; the splitting rules of `std::path` are not restated.
#[verifier::external_body]
pub(crate) fn file_stem_of(path: &str) -> (r: Option<String>)
    ensures
        opt_chars(r) == path_file_stem(path@),
{
    std::path::Path::new(path).file_stem().map(|s| s.to_string_lossy().into_owned())
}

/// `Path::parent` on a path given as text.  The contract only names the
/// result.
#[verifier::external_body]
fn parent_of(path: &str) -> (r: Option<String>)
    ensures
        opt_chars(r) == path_parent(path@),
{
    std::path::Path::new(path).parent().map(|p| p.to_string_lossy().into_owned())
}

/// `Path::join` on two paths given as text.  The contract only names the
/// result.
#[verifier::external_body]
pub(crate) fn join_path(base: &str, name: &str) -> (r: String)
    ensures
        r@ == path_join(base@, name@),
{
    std::path::Path::new(base).join(name).to_string_lossy().into_owned()
}

// ---------------------------------------------------------------------------
// File names
// ---------------------------------------------------------------------------

/// The suffix that each output format appends to a file stem.
pub open spec fn format_suffix(format: OutputFormat) -> Seq<char> {
    match format {
        OutputFormat::Json => ".transcript.json"@,
        OutputFormat::Speakers(_) => ".speakers.txt"@,
        OutputFormat::Text(_) => ".transcript.txt"@,
        OutputFormat::Subtitle(SubtitleFormat::Srt) => ".srt"@,
        OutputFormat::Subtitle(SubtitleFormat::Vtt) => ".vtt"@,
    }
}

/// The stem used when a path has none (or an empty one).
pub open spec fn stem_or_default(stem: Option<Seq<char>>) -> Seq<char> {
    match stem {
        Some(s) => if s.len() > 0 {
            s
        } else {
            "transcript"@
        },
        None => "transcript"@,
    }
}

/// The output file name for a stem found in the input path.
pub open spec fn output_file_name_spec(stem: Option<Seq<char>>, format: OutputFormat) -> Seq<char> {
    stem_or_default(stem) + format_suffix(format)
}

/// The directory an output file goes to: the input's parent, or `.`.
pub open spec fn directory_or_current(parent: Option<Seq<char>>) -> Seq<char> {
    match parent {
        Some(p) => p,
        None => "."@,
    }
}

fn append_format_suffix(s: &mut String, format: OutputFormat)
    ensures
        final(s)@ == old(s)@ + format_suffix(format),
{
    match format {
        OutputFormat::Json => append_str(s, ".transcript.json"),
        OutputFormat::Speakers(_) => append_str(s, ".speakers.txt"),
        OutputFormat::Text(_) => append_str(s, ".transcript.txt"),
        OutputFormat::Subtitle(SubtitleFormat::Srt) => append_str(s, ".srt"),
        OutputFormat::Subtitle(SubtitleFormat::Vtt) => append_str(s, ".vtt"),
    }
}

/// The output file name for the stem that `Path::file_stem` found: the stem
/// (or `transcript` when there is none or it is empty) followed by the
/// format's suffix.
pub fn output_file_name(stem: Option<String>, format: OutputFormat) -> (r: String)
    ensures
        r@ == output_file_name_spec(opt_chars(stem), format),
{
    let mut name = match stem {
        Some(s) => if !s.as_str().is_empty() {
            s
        } else {
            "transcript".to_string()
        },
        None => "transcript".to_string(),
    };
    proof {
        reveal_strlit("transcript");
    }
    append_format_suffix(&mut name, format);
    name
}

/// The default output path for a local recording: a file next to it, named
/// after its stem with the format's suffix.
pub fn default_output_path(audio_path: &str, output_format: OutputFormat) -> (r: String)
    ensures
        r@ == path_join(
            directory_or_current(path_parent(audio_path@)),
            output_file_name_spec(path_file_stem(audio_path@), output_format),
        ),
{
    let stem = file_stem_of(audio_path);
    let file_name = output_file_name(stem, output_format);
    let directory = match parent_of(audio_path) {
        Some(p) => p,
        None => ".".to_string(),
    };
    join_path(directory.as_str(), file_name.as_str())
}

// ---------------------------------------------------------------------------
// Titles of remote media
// ---------------------------------------------------------------------------

/// Characters that a sanitised stem keeps as they are.
pub open spec fn stem_keeps(c: char) -> bool {
    is_ascii_alnum(c) || c == '.' || c == '-'
}

/// Every character that is kept goes through; each run of other characters
/// becomes a single `_`.
pub open spec fn replace_separators(s: Seq<char>) -> Seq<char>
    decreases s.len(),
{
    if s.len() == 0 {
        seq![]
    } else {
        let r = replace_separators(s.drop_last());
        if stem_keeps(s.last()) {
            r.push(s.last())
        } else if r.len() > 0 && r.last() == '_' {
            r
        } else {
            r.push('_')
        }
    }
}

/// `s` without leading `_`.
pub open spec fn strip_leading_underscores(s: Seq<char>) -> Seq<char>
    decreases s.len(),
{
    if s.len() > 0 && s[0] == '_' {
        strip_leading_underscores(s.drop_first())
    } else {
        s
    }
}

/// `s` without trailing `_`.
pub open spec fn strip_trailing_underscores(s: Seq<char>) -> Seq<char>
    decreases s.len(),
{
    if s.len() > 0 && s.last() == '_' {
        strip_trailing_underscores(s.drop_last())
    } else {
        s
    }
}

/// A title turned into a file stem: separators collapsed to `_`, no `_` at
/// either end, and `transcript` when nothing is left.
pub open spec fn sanitize_spec(s: Seq<char>) -> Seq<char> {
    let t = strip_trailing_underscores(strip_leading_underscores(replace_separators(s)));
    if t.len() == 0 {
        "transcript"@
    } else {
        t
    }
}

proof fn lemma_strip_leading_skip(s: Seq<char>, a: int)
    requires
        0 <= a <= s.len(),
        forall|k: int| 0 <= k < a ==> s[k] == '_',
    ensures
        strip_leading_underscores(s) == strip_leading_underscores(s.skip(a)),
    decreases a,
{
    if a > 0 {
        assert(s.drop_first().skip(a - 1) == s.skip(a));
        lemma_strip_leading_skip(s.drop_first(), a - 1);
    } else {
        assert(s.skip(0) == s);
    }
}

proof fn lemma_strip_trailing_take(s: Seq<char>, b: int)
    requires
        0 <= b <= s.len(),
        forall|k: int| b <= k < s.len() ==> s[k] == '_',
    ensures
        strip_trailing_underscores(s) == strip_trailing_underscores(s.take(b)),
    decreases s.len() - b,
{
    if b < s.len() {
        assert(s.drop_last().take(b) == s.take(b));
        lemma_strip_trailing_take(s.drop_last(), b);
    } else {
        assert(s.take(b) == s);
    }
}

fn is_stem_char(c: char) -> (r: bool)
    ensures
        r == stem_keeps(c),
{
    ('0' <= c && c <= '9') || ('a' <= c && c <= 'z') || ('A' <= c && c <= 'Z') || c == '.'
        || c == '-'
}

/// Turns a title (or a URL) into a file stem made of ASCII letters, digits,
/// `.`, `-` and single `_` separators.
pub fn sanitize_file_stem(value: &str) -> (r: String)
    ensures
        r@ == sanitize_spec(value@),
{
    let v = chars_of(value);
    let mut out: Vec<char> = Vec::new();
    let mut last_was_separator = false;
    let mut i: usize = 0;
    while i < v.len()
        invariant
            i <= v.len(),
            out@ == replace_separators(v@.take(i as int)),
            last_was_separator == (out@.len() > 0 && out@.last() == '_'),
            forall|k: int| 0 <= k < out@.len() ==> (stem_keeps(#[trigger] out@[k]) || out@[k] == '_'),
        decreases v.len() - i,
    {
        let c = v[i];
        assert(v@.take(i + 1).drop_last() == v@.take(i as int));
        if is_stem_char(c) {
            last_was_separator = false;
            out.push(c);
        } else if !last_was_separator {
            last_was_separator = true;
            out.push('_');
        }
        i = i + 1;
    }
    assert(v@.take(v.len() as int) == v@);
    let mut a: usize = 0;
    while a < out.len() && out[a] == '_'
        invariant
            a <= out.len(),
            forall|k: int| 0 <= k < a ==> out@[k] == '_',
        decreases out.len() - a,
    {
        a = a + 1;
    }
    proof {
        lemma_strip_leading_skip(out@, a as int);
        let t = out@.skip(a as int);
        assert(t.len() > 0 ==> t[0] != '_');
        assert(strip_leading_underscores(t) == t);
    }
    let mut b: usize = out.len();
    while b > a && out[b - 1] == '_'
        invariant
            a <= b <= out.len(),
            forall|k: int| b <= k < out.len() ==> out@[k] == '_',
        decreases b,
    {
        b = b - 1;
    }
    proof {
        let t = out@.skip(a as int);
        lemma_strip_trailing_take(t, (b - a) as int);
        assert(t.take((b - a) as int) == out@.subrange(a as int, b as int));
        let u = out@.subrange(a as int, b as int);
        if u.len() > 0 {
            assert(u.last() != '_');
        }
        assert(strip_trailing_underscores(u) == u);
    }
    if a == b {
        proof {
            reveal_strlit("transcript");
        }
        return "transcript".to_string();
    }
    let mut r = String::new();
    let mut k: usize = a;
    while k < b
        invariant
            a <= k <= b,
            b <= out.len(),
            r@ == out@.subrange(a as int, k as int),
        decreases b - k,
    {
        push_char(&mut r, out[k]);
        k = k + 1;
        assert(out@.subrange(a as int, k as int) == out@.subrange(a as int, k - 1).push(
            out@[k - 1],
        ));
    }
    r
}

/// The stem of a remote download: its title when that has any non-blank
/// character, its URL otherwise, sanitised either way.
pub open spec fn remote_stem_spec(url: Seq<char>, video_title: Option<Seq<char>>) -> Seq<char> {
    match video_title {
        Some(t) => if trim(t).len() > 0 {
            sanitize_spec(t)
        } else {
            sanitize_spec(url)
        },
        None => sanitize_spec(url),
    }
}

pub open spec fn opt_str_chars(o: Option<&str>) -> Option<Seq<char>> {
    match o {
        Some(s) => Some(s@),
        None => None,
    }
}

/// The default output path for an input: next to a local recording, or in
/// the current directory for remote media, named after its title.
pub fn default_output_path_for_input(
    source: &InputSource,
    video_title: Option<&str>,
    output_format: OutputFormat,
) -> (r: String)
    ensures
        r@ == match source {
            InputSource::LocalPath(p) => path_join(
                directory_or_current(path_parent(p@)),
                output_file_name_spec(path_file_stem(p@), output_format),
            ),
            InputSource::RemoteUrl(url) => remote_stem_spec(url@, opt_str_chars(video_title))
                + format_suffix(output_format),
        },
{
    match source {
        InputSource::LocalPath(p) => default_output_path(p.as_str(), output_format),
        InputSource::RemoteUrl(url) => {
            let mut stem = match video_title {
                Some(t) => {
                    let trimmed = trim_str(t);
                    if trimmed.len() > 0 {
                        sanitize_file_stem(t)
                    } else {
                        sanitize_file_stem(url.as_str())
                    }
                },
                None => sanitize_file_stem(url.as_str()),
            };
            append_format_suffix(&mut stem, output_format);
            stem
        },
    }
}

} // verus!

verus! {

// ---------------------------------------------------------------------------
// Where an output file is written
// ---------------------------------------------------------------------------

/// Name for what `Path::is_absolute` answers for a path written as text; it
/// depends on the text alone.
pub uninterp spec fn path_is_absolute(path: Seq<char>) -> bool;

/// Name for the final component that `Path::file_name` finds in a path
/// written as text, or none.  It depends on the text alone.
pub uninterp spec fn path_file_name(path: Seq<char>) -> Option<Seq<char>>;

/// `Path::is_absolute` on a path given as text; only the name is stated.
#[verifier::external_body]
fn is_absolute(path: &str) -> (r: bool)
    ensures
        r == path_is_absolute(path@),
{
    std::path::Path::new(path).is_absolute()
}

/// `Path::file_name` on a path given as text; only the name is stated.
#[verifier::external_body]
fn file_name_of(path: &str) -> (r: Option<String>)
    ensures
        opt_chars(r) == path_file_name(path@),
{
    std::path::Path::new(path).file_name().map(|n| n.to_string_lossy().into_owned())
}

/// An output path as given, or relative to the working directory.
pub open spec fn output_candidate_spec(output_path: Seq<char>, current_dir: Seq<char>) -> Seq<char> {
    if path_is_absolute(output_path) {
        output_path
    } else {
        path_join(current_dir, output_path)
    }
}

/// The path an output is written to, before looking at the file system:
/// an absolute path as it is, a relative one inside `current_dir`.
pub fn output_candidate(output_path: &str, current_dir: &str) -> (r: String)
    ensures
        r@ == output_candidate_spec(output_path@, current_dir@),
{
    if is_absolute(output_path) {
        output_path.to_string()
    } else {
        join_path(current_dir, output_path)
    }
}

/// Where an output goes when the requested path is an existing directory:
/// inside it, under the default file name (or `transcript.txt` when the
/// default path has no file name).
pub fn path_inside_directory(directory: &str, default_output_path: &str) -> (r: String)
    ensures
        r@ == path_join(
            directory@,
            match path_file_name(default_output_path@) {
                Some(n) => n,
                None => "transcript.txt"@,
            },
        ),
{
    let name = match file_name_of(default_output_path) {
        Some(n) => n,
        None => "transcript.txt".to_string(),
    };
    join_path(directory, name.as_str())
}

} // verus!

verus! {

/// A character a sanitised stem may hold: an ASCII letter or digit, `.`,
/// `-` or `_`.
pub open spec fn stem_safe(c: char) -> bool {
    stem_keeps(c) || c == '_'
}

/// No two `_` in a row.
pub open spec fn no_double_underscore(t: Seq<char>) -> bool {
    forall|i: int| 0 <= i < t.len() - 1 ==> !(#[trigger] t[i] == '_' && t[i + 1] == '_')
}

pub open spec fn all_stem_safe(t: Seq<char>) -> bool {
    forall|i: int| 0 <= i < t.len() ==> stem_safe(#[trigger] t[i])
}

proof fn lemma_replace_shape(s: Seq<char>)
    ensures
        all_stem_safe(replace_separators(s)),
        no_double_underscore(replace_separators(s)),
    decreases s.len(),
{
    if s.len() > 0 {
        lemma_replace_shape(s.drop_last());
        let r = replace_separators(s.drop_last());
        let out = replace_separators(s);
        assert forall|i: int| 0 <= i < out.len() implies stem_safe(#[trigger] out[i]) by {
            if i < r.len() {
                assert(out[i] == r[i]);
            }
        }
        assert forall|i: int| 0 <= i < out.len() - 1 implies !(#[trigger] out[i] == '_' && out[i
            + 1] == '_') by {
            if i + 1 < r.len() {
                assert(out[i] == r[i] && out[i + 1] == r[i + 1]);
            } else if out.len() > r.len() {
                assert(out[i] == r[i]);
            }
        }
    }
}

proof fn lemma_strip_leading_shape(x: Seq<char>)
    ensures
        strip_leading_underscores(x).len() <= x.len(),
        strip_leading_underscores(x) == x.skip(x.len() - strip_leading_underscores(x).len()),
        strip_leading_underscores(x).len() > 0 ==> strip_leading_underscores(x)[0] != '_',
    decreases x.len(),
{
    if x.len() > 0 && x[0] == '_' {
        lemma_strip_leading_shape(x.drop_first());
        let t = strip_leading_underscores(x.drop_first());
        assert(x.drop_first().skip(x.drop_first().len() - t.len()) =~= x.skip(x.len() - t.len()));
    } else {
        assert(x.skip(0) =~= x);
    }
}

proof fn lemma_strip_trailing_shape(y: Seq<char>)
    ensures
        strip_trailing_underscores(y).len() <= y.len(),
        strip_trailing_underscores(y) == y.take(strip_trailing_underscores(y).len() as int),
        strip_trailing_underscores(y).len() > 0 ==> strip_trailing_underscores(y).last() != '_',
    decreases y.len(),
{
    if y.len() > 0 && y.last() == '_' {
        lemma_strip_trailing_shape(y.drop_last());
        let t = strip_trailing_underscores(y.drop_last());
        assert(y.drop_last().take(t.len() as int) =~= y.take(t.len() as int));
    } else {
        assert(y.take(y.len() as int) =~= y);
    }
}

/// A sanitised stem is a safe file name: never empty, made of ASCII letters,
/// digits, `.`, `-` and `_` only, with no `_` at either end and never two in
/// a row.
pub proof fn lemma_sanitized_stem_is_safe(s: Seq<char>)
    ensures
        sanitize_spec(s).len() > 0,
        all_stem_safe(sanitize_spec(s)),
        sanitize_spec(s)[0] != '_',
        sanitize_spec(s).last() != '_',
        no_double_underscore(sanitize_spec(s)),
{
    let x = replace_separators(s);
    lemma_replace_shape(s);
    lemma_strip_leading_shape(x);
    let y = strip_leading_underscores(x);
    let j = x.len() - y.len();
    lemma_strip_trailing_shape(y);
    let t = strip_trailing_underscores(y);
    if t.len() == 0 {
        reveal_strlit("transcript");
        let w = "transcript"@;
        assert(w == seq!['t', 'r', 'a', 'n', 's', 'c', 'r', 'i', 'p', 't']);
        assert(all_stem_safe(w));
        assert(no_double_underscore(w));
    } else {
        assert forall|i: int| 0 <= i < t.len() implies t[i] == x[j + i] by {
            assert(t[i] == y[i]);
            assert(y[i] == x[j + i]);
        }
        assert forall|i: int| 0 <= i < t.len() implies stem_safe(#[trigger] t[i]) by {
            assert(t[i] == x[j + i]);
        }
        assert forall|i: int| 0 <= i < t.len() - 1 implies !(#[trigger] t[i] == '_' && t[i + 1]
            == '_') by {
            assert(t[i] == x[j + i]);
            assert(t[i + 1] == x[j + i + 1]);
        }
        assert(t[0] == y[0]);
    }
}

} // verus!
