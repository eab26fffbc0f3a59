//! Help and version text.

use vstd::prelude::*;

use crate::text::{append_str, chars_of, contains_seq, join, join_chars, views};

verus! {

/// The released version of the tool.
pub const VERSION: &'static str = "1.0.3";

/// `s` padded with spaces on the right to at least `width` characters
/// (`{:<width$}`).
pub open spec fn pad_right(s: Seq<char>, width: nat) -> Seq<char> {
    if s.len() >= width {
        s
    } else {
        s + Seq::new((width - s.len()) as nat, |_i: int| ' ')
    }
}

/// One option line of the help text: the flags in a 44-column field, then
/// the description.
pub open spec fn option_line(name: Seq<char>, description: Seq<char>) -> Seq<char> {
    "  "@ + pad_right(name, 44) + " "@ + description
}

fn pad_right_exec(v: &mut Vec<char>, width: usize)
    ensures
        final(v)@ == pad_right(old(v)@, width as nat),
{
    let ghost start = v@;
    if v.len() < width {
        let n = v.len();
        while v.len() < width
            invariant
                n <= v.len() <= width,
                n == start.len(),
                v@ == start + Seq::new((v.len() - n) as nat, |_i: int| ' '),
            decreases width - v.len(),
        {
            let ghost before = v@;
            v.push(' ');
            assert(Seq::new((v.len() - n) as nat, |_i: int| ' ') == Seq::new(
                (before.len() - n) as nat,
                |_i: int| ' ',
            ).push(' '));
        }
    }
}

fn option_line_exec(name: &str, description: &str) -> (r: Vec<char>)
    ensures
        r@ == option_line(name@, description@),
{
    let mut field = chars_of(name);
    pad_right_exec(&mut field, 44);
    let mut r = chars_of("  ");
    let mut k: usize = 0;
    let ghost start = r@;
    while k < field.len()
        invariant
            k <= field.len(),
            r@ == start + field@.take(k as int),
        decreases field.len() - k,
    {
        r.push(field[k]);
        k = k + 1;
        assert(field@.take(k as int) == field@.take(k - 1).push(field@[k - 1]));
    }
    assert(field@.take(field.len() as int) == field@);
    r.push(' ');
    let d = chars_of(description);
    let ghost mid = r@;
    let mut j: usize = 0;
    while j < d.len()
        invariant
            j <= d.len(),
            r@ == mid + d@.take(j as int),
        decreases d.len() - j,
    {
        r.push(d[j]);
        j = j + 1;
        assert(d@.take(j as int) == d@.take(j - 1).push(d@[j - 1]));
    }
    assert(d@.take(d.len() as int) == d@);
    proof {
        reveal_strlit(" ");
        assert(" "@ == seq![' ']);
        assert(r@ == start + field@ + " "@ + d@);
    }
    r
}

/// The lines of the help text; `model_dir` and `model_package` are the
/// default model locations as they should be shown.
pub open spec fn usage_lines(model_dir: Seq<char>, model_package: Seq<char>) -> Seq<Seq<char>> {
    seq![
        "Usage:"@,
        "  fscript <media-or-url> [destination] [options]"@,
        Seq::<char>::empty(),
        "Default:"@,
        "  fscript <media-or-url>"@,
        "    Default flags: --speakers --diarize coreml --clean --chunk 120 --overlap 2"@,
        "    Accepts local audio/video files or remote media URLs; video inputs are transcribed from their audio stream."@,
        "    If `fluidaudiocli` is unavailable, warns and falls back to plain transcription."@,
        Seq::<char>::empty(),
        "Output:"@,
        option_line("--speakers[=plain|timestamps]"@, "Speaker-aware transcript. Default output mode."@),
        option_line("--text[=plain|timestamps]"@, "Transcript text; plain omits timestamps."@),
        option_line("--json"@, "Full JSON result with timings and metadata."@),
        option_line("--srt"@, "Experimental SubRip subtitle output."@),
        option_line("--vtt"@, "Experimental WebVTT subtitle output."@),
        Seq::<char>::empty(),
        "Destination:"@,
        option_line("[destination]"@, "Output file, output directory, or `-` / `--stdout`."@),
        option_line("-o, --output PATH"@, "Explicit output path."@),
        option_line("--stdout, -"@, "Write transcript contents to stdout."@),
        option_line("--raw"@, "Disable repeated-word cleanup for this run."@),
        option_line("-c, --clean"@, "Force cleaned output for this run."@),
        Seq::<char>::empty(),
        "Diarization:"@,
        option_line("-d, --diarize [coreml|lseend-dihard3]"@, "Enable diarization, optionally choosing the model."@),
        option_line("-D, --no-diarization"@, "Disable diarization entirely."@),
        option_line("-n, --num-speakers N"@, "Expected speaker count. CoreML only."@),
        option_line("-t, --threshold N"@, "Decision threshold. ls-eend-dihard3 only."@),
        option_line("--backend coreml|lseend-dihard3|none"@, "Legacy alias for older scripts."@),
        Seq::<char>::empty(),
        "Remote input:"@,
        option_line("-l, --local, --prefer-local-for-remote"@, "Always download audio and transcribe locally."@),
        Seq::<char>::empty(),
        "Chunking and model overrides:"@,
        option_line("--chunk N, --chunk-seconds N"@, "Chunk length in seconds. Use 0 to disable."@),
        option_line("--overlap N, --chunk-overlap-seconds N"@, "Chunk overlap in seconds."@),
        option_line("--model-dir PATH"@, "Use an existing extracted model directory."@),
        option_line("--model-package PATH"@, "Override the cached model tarball path."@),
        option_line("--model-url URL"@, "Override the model download URL."@),
        Seq::<char>::empty(),
        "Defaults summary:"@,
        option_line("Output mode"@, "--speakers with timestamps."@),
        option_line("Diarization"@, "coreml when `fluidaudiocli` is available."@),
        option_line("ls-eend threshold"@, "0.3 when selected."@),
        option_line("Cleaning"@, "On."@),
        option_line("Chunking"@, "--chunk 120 with --overlap 2."@),
        option_line("Model dir"@, model_dir),
        option_line("Model package"@, model_package),
        Seq::<char>::empty(),
        "Examples:"@,
        "  fscript lecture.mp3"@,
        "  fscript lecture.mp3 notes/"@,
        "  fscript lecture.mp3 --text=plain"@,
        "  fscript lecture.mp3 --diarize lseend-dihard3"@,
        "  fscript lecture.mp3 -D --json --raw"@
    ]
}

/// The help text: its lines joined with newlines.
pub open spec fn usage_spec(model_dir: Seq<char>, model_package: Seq<char>) -> Seq<char> {
    join(usage_lines(model_dir, model_package), "\n"@)
}

/// The help text, given how the default model directory and package should
/// be shown.
pub fn usage_text(model_dir: &str, model_package: &str) -> (r: String)
    ensures
        r@ == usage_spec(model_dir@, model_package@),
{
    let mut lines: Vec<Vec<char>> = Vec::new();
    lines.push(chars_of("Usage:"));
    lines.push(chars_of("  fscript <media-or-url> [destination] [options]"));
    lines.push(Vec::new());
    lines.push(chars_of("Default:"));
    lines.push(chars_of("  fscript <media-or-url>"));
    lines.push(chars_of("    Default flags: --speakers --diarize coreml --clean --chunk 120 --overlap 2"));
    lines.push(chars_of("    Accepts local audio/video files or remote media URLs; video inputs are transcribed from their audio stream."));
    lines.push(chars_of("    If `fluidaudiocli` is unavailable, warns and falls back to plain transcription."));
    lines.push(Vec::new());
    lines.push(chars_of("Output:"));
    lines.push(option_line_exec("--speakers[=plain|timestamps]", "Speaker-aware transcript. Default output mode."));
    lines.push(option_line_exec("--text[=plain|timestamps]", "Transcript text; plain omits timestamps."));
    lines.push(option_line_exec("--json", "Full JSON result with timings and metadata."));
    lines.push(option_line_exec("--srt", "Experimental SubRip subtitle output."));
    lines.push(option_line_exec("--vtt", "Experimental WebVTT subtitle output."));
    lines.push(Vec::new());
    lines.push(chars_of("Destination:"));
    lines.push(option_line_exec("[destination]", "Output file, output directory, or `-` / `--stdout`."));
    lines.push(option_line_exec("-o, --output PATH", "Explicit output path."));
    lines.push(option_line_exec("--stdout, -", "Write transcript contents to stdout."));
    lines.push(option_line_exec("--raw", "Disable repeated-word cleanup for this run."));
    lines.push(option_line_exec("-c, --clean", "Force cleaned output for this run."));
    lines.push(Vec::new());
    lines.push(chars_of("Diarization:"));
    lines.push(option_line_exec("-d, --diarize [coreml|lseend-dihard3]", "Enable diarization, optionally choosing the model."));
    lines.push(option_line_exec("-D, --no-diarization", "Disable diarization entirely."));
    lines.push(option_line_exec("-n, --num-speakers N", "Expected speaker count. CoreML only."));
    lines.push(option_line_exec("-t, --threshold N", "Decision threshold. ls-eend-dihard3 only."));
    lines.push(option_line_exec("--backend coreml|lseend-dihard3|none", "Legacy alias for older scripts."));
    lines.push(Vec::new());
    lines.push(chars_of("Remote input:"));
    lines.push(option_line_exec("-l, --local, --prefer-local-for-remote", "Always download audio and transcribe locally."));
    lines.push(Vec::new());
    lines.push(chars_of("Chunking and model overrides:"));
    lines.push(option_line_exec("--chunk N, --chunk-seconds N", "Chunk length in seconds. Use 0 to disable."));
    lines.push(option_line_exec("--overlap N, --chunk-overlap-seconds N", "Chunk overlap in seconds."));
    lines.push(option_line_exec("--model-dir PATH", "Use an existing extracted model directory."));
    lines.push(option_line_exec("--model-package PATH", "Override the cached model tarball path."));
    lines.push(option_line_exec("--model-url URL", "Override the model download URL."));
    lines.push(Vec::new());
    lines.push(chars_of("Defaults summary:"));
    lines.push(option_line_exec("Output mode", "--speakers with timestamps."));
    lines.push(option_line_exec("Diarization", "coreml when `fluidaudiocli` is available."));
    lines.push(option_line_exec("ls-eend threshold", "0.3 when selected."));
    lines.push(option_line_exec("Cleaning", "On."));
    lines.push(option_line_exec("Chunking", "--chunk 120 with --overlap 2."));
    lines.push(option_line_exec("Model dir", model_dir));
    lines.push(option_line_exec("Model package", model_package));
    lines.push(Vec::new());
    lines.push(chars_of("Examples:"));
    lines.push(chars_of("  fscript lecture.mp3"));
    lines.push(chars_of("  fscript lecture.mp3 notes/"));
    lines.push(chars_of("  fscript lecture.mp3 --text=plain"));
    lines.push(chars_of("  fscript lecture.mp3 --diarize lseend-dihard3"));
    lines.push(chars_of("  fscript lecture.mp3 -D --json --raw"));
    assert(views(lines@) =~= usage_lines(model_dir@, model_package@));
    join_chars(&lines, "\n")
}

/// Name for what `Path::strip_prefix` leaves of `path` once the leading
/// components equal to those of `base` are removed (`None` when `base` is not
/// a component-wise prefix); it depends on the two paths alone.
pub uninterp spec fn path_strip_prefix(path: Seq<char>, base: Seq<char>) -> Option<Seq<char>>;

/// `Path::strip_prefix`, the remainder shown as text.
#[verifier::external_body]
fn strip_path_prefix(path: &str, base: &str) -> (r: Option<String>)
    ensures
        match r {
            Some(s) => path_strip_prefix(path@, base@) == Some(s@),
            None => path_strip_prefix(path@, base@) is None,
        },
{
    match std::path::Path::new(path).strip_prefix(base) {
        Ok(rest) => Some(rest.to_string_lossy().into_owned()),
        Err(_) => None,
    }
}

/// How a path is shown in the help text: under the home directory it is
/// written with `~`.
pub open spec fn help_path_spec(path: Seq<char>, home: Option<Seq<char>>) -> Seq<char> {
    match home {
        None => path,
        Some(h) => match path_strip_prefix(path, h) {
            None => path,
            Some(rest) => if rest.len() == 0 {
                "~"@
            } else {
                "~/"@ + rest
            },
        },
    }
}

/// Shows `path` relative to `home` (as `~` or `~/...`) when it lies inside
/// it.
pub fn display_help_path(path: &str, home: Option<&str>) -> (r: String)
    ensures
        r@ == help_path_spec(path@, match home {
            Some(h) => Some(h@),
            None => None,
        }),
{
    match home {
        None => String::from_str(path),
        Some(h) => match strip_path_prefix(path, h) {
            None => String::from_str(path),
            Some(rest) => {
                if rest.as_str().unicode_len() == 0 {
                    String::from_str("~")
                } else {
                    let mut s = String::from_str("~/");
                    append_str(&mut s, rest.as_str());
                    s
                }
            },
        },
    }
}

proof fn lemma_join_keeps_prefix(ls: Seq<Seq<char>>, sep: Seq<char>, m: int)
    requires
        1 <= m <= ls.len(),
    ensures
        join(ls.take(m), sep).len() <= join(ls, sep).len(),
        join(ls, sep).take(join(ls.take(m), sep).len() as int) == join(ls.take(m), sep),
    decreases ls.len(),
{
    if ls.len() == m {
        assert(ls.take(m) == ls);
    } else {
        let init = ls.drop_last();
        assert(init.take(m) == ls.take(m));
        lemma_join_keeps_prefix(init, sep, m);
        assert(join(ls, sep) == join(init, sep) + sep + ls.last());
        let k = join(ls.take(m), sep).len() as int;
        assert(join(ls, sep).take(k) == join(init, sep).take(k));
    }
}

/// The help text shows the command with its `<media-or-url>` placeholder,
/// whatever the model locations shown in it.
pub proof fn lemma_usage_names_media_or_url(model_dir: Seq<char>, model_package: Seq<char>)
    ensures
        crate::text::contains_seq(
            usage_spec(model_dir, model_package),
            "fscript <media-or-url>"@,
        ),
{
    let ls = usage_lines(model_dir, model_package);
    let sep = "\n"@;
    let hay = usage_spec(model_dir, model_package);
    let needle = "fscript <media-or-url>"@;
    reveal_strlit("Usage:");
    reveal_strlit("  fscript <media-or-url> [destination] [options]");
    reveal_strlit("fscript <media-or-url>");
    reveal_strlit("\n");
    lemma_join_keeps_prefix(ls, sep, 2);
    let two = ls.take(2);
    assert(two.drop_last() == ls.take(1));
    assert(two.len() == 2);
    assert(two.last() == ls[1]);
    assert(join(ls.take(1), sep) == ls[0]);
    assert(join(two, sep) == join(two.drop_last(), sep) + sep + two.last());
    assert(join(two, sep) == ls[0] + sep + ls[1]);
    let head = join(two, sep);
    assert(head.len() == 55);
    assert(hay.take(55) == head);
    assert(head.subrange(9, 31) == needle);
    assert(hay.subrange(9, 31) == hay.take(55).subrange(9, 31));
    assert(hay.subrange(9, 9 + needle.len() as int) == needle);
}

/// No `<` anywhere in `s`.
spec fn no_angle(s: Seq<char>) -> bool {
    forall|k: int| 0 <= k < s.len() ==> s[k] != '<'
}

/// No `<` in `s` is followed by `a`.
spec fn no_angle_a(s: Seq<char>) -> bool {
    forall|k: int| 0 <= k < s.len() - 1 ==> !(#[trigger] s[k] == '<' && s[k + 1] == 'a')
}

/// The placeholder that older versions of the help text used.
spec fn old_placeholder() -> Seq<char> {
    "<audio-or-url>"@
}

proof fn lemma_old_placeholder_shape()
    ensures
        old_placeholder().len() == 14,
        old_placeholder()[0] == '<',
        old_placeholder()[1] == 'a',
        forall|j: int| 0 <= j < old_placeholder().len() ==> old_placeholder()[j] != '\n',
{
    reveal_strlit("<audio-or-url>");
}

proof fn lemma_no_angle_a_free(s: Seq<char>)
    requires
        no_angle_a(s),
    ensures
        !contains_seq(s, old_placeholder()),
{
    lemma_old_placeholder_shape();
    let n = old_placeholder();
    if contains_seq(s, n) {
        let i = choose|i: int| 0 <= i <= s.len() - n.len() && #[trigger] s.subrange(i, i + n.len()) == n;
        assert(s.subrange(i, i + n.len())[0] == s[i]);
        assert(s.subrange(i, i + n.len())[1] == s[i + 1]);
        assert(!(s[i] == '<' && s[i + 1] == 'a'));
    }
}

proof fn lemma_no_angle_free(s: Seq<char>)
    requires
        no_angle(s),
    ensures
        !contains_seq(s, old_placeholder()),
{
    assert forall|k: int| 0 <= k < s.len() - 1 implies !(#[trigger] s[k] == '<' && s[k + 1] == 'a') by {}
    lemma_no_angle_a_free(s);
}

/// A placeholder found after a prefix without `<` lies in what follows it.
proof fn lemma_after_plain_prefix(p: Seq<char>, d: Seq<char>)
    requires
        no_angle(p),
        !contains_seq(d, old_placeholder()),
    ensures
        !contains_seq(p + d, old_placeholder()),
{
    lemma_old_placeholder_shape();
    let n = old_placeholder();
    let h = p + d;
    if contains_seq(h, n) {
        let i = choose|i: int| 0 <= i <= h.len() - n.len() && #[trigger] h.subrange(i, i + n.len()) == n;
        assert(h.subrange(i, i + n.len())[0] == h[i]);
        if i < p.len() {
            assert(h[i] == p[i]);
        } else {
            let j = i - p.len();
            assert(d.subrange(j, j + n.len()) =~= h.subrange(i, i + n.len()));
        }
    }
}

/// Two lines joined by a newline hold the placeholder only if one of them
/// does.
proof fn lemma_newline_free(a: Seq<char>, b: Seq<char>)
    requires
        !contains_seq(a, old_placeholder()),
        !contains_seq(b, old_placeholder()),
    ensures
        !contains_seq(a + seq!['\n'] + b, old_placeholder()),
{
    lemma_old_placeholder_shape();
    let n = old_placeholder();
    let h = a + seq!['\n'] + b;
    if contains_seq(h, n) {
        let i = choose|i: int| 0 <= i <= h.len() - n.len() && #[trigger] h.subrange(i, i + n.len()) == n;
        if i + n.len() <= a.len() {
            assert(a.subrange(i, i + n.len()) =~= h.subrange(i, i + n.len()));
        } else if i >= a.len() + 1 {
            let j = i - a.len() - 1;
            assert(b.subrange(j, j + n.len()) =~= h.subrange(i, i + n.len()));
        } else {
            assert(h[a.len() as int] == '\n');
            assert(h.subrange(i, i + n.len())[a.len() - i] == h[a.len() as int]);
        }
    }
}

proof fn lemma_join_lines_free(ls: Seq<Seq<char>>)
    requires
        forall|k: int| 0 <= k < ls.len() ==> !contains_seq(#[trigger] ls[k], old_placeholder()),
    ensures
        !contains_seq(join(ls, seq!['\n']), old_placeholder()),
    decreases ls.len(),
{
    if ls.len() == 0 {
        lemma_no_angle_free(Seq::<char>::empty());
    } else if ls.len() > 1 {
        let init = ls.drop_last();
        assert forall|k: int| 0 <= k < init.len() implies !contains_seq(
            #[trigger] init[k],
            old_placeholder(),
        ) by {
            assert(init[k] == ls[k]);
        }
        lemma_join_lines_free(init);
        assert(!contains_seq(ls[ls.len() - 1], old_placeholder()));
        lemma_newline_free(join(init, seq!['\n']), ls.last());
    }
}

proof fn lemma_option_line_parts(name: Seq<char>, description: Seq<char>)
    requires
        no_angle(name),
    ensures
        option_line(name, description) == ("  "@ + pad_right(name, 44) + " "@) + description,
        no_angle("  "@ + pad_right(name, 44) + " "@),
        no_angle(description) ==> no_angle(option_line(name, description)),
{
    reveal_strlit("  ");
    reveal_strlit(" ");
    let pre = "  "@ + pad_right(name, 44) + " "@;
    assert forall|k: int| 0 <= k < pre.len() implies pre[k] != '<' by {
        if 2 <= k < 2 + name.len() {
            assert(pre[k] == name[k - 2]);
        }
    }
    assert(option_line(name, description) =~= pre + description);
    if no_angle(description) {
        let l = pre + description;
        assert forall|k: int| 0 <= k < l.len() implies l[k] != '<' by {
            if k >= pre.len() {
                assert(l[k] == description[k - pre.len()]);
            } else {
                assert(l[k] == pre[k]);
            }
        }
    }
}

proof fn lemma_fixed_lines_plain()
    ensures
        no_angle("Usage:"@),
        no_angle_a("  fscript <media-or-url> [destination] [options]"@),
        no_angle("Default:"@),
        no_angle_a("  fscript <media-or-url>"@),
        no_angle("    Default flags: --speakers --diarize coreml --clean --chunk 120 --overlap 2"@),
        no_angle("    Accepts local audio/video files or remote media URLs; video inputs are transcribed from their audio stream."@),
        no_angle("    If `fluidaudiocli` is unavailable, warns and falls back to plain transcription."@),
        no_angle("Output:"@),
        no_angle("Destination:"@),
        no_angle("Diarization:"@),
        no_angle("Remote input:"@),
        no_angle("Chunking and model overrides:"@),
        no_angle("Defaults summary:"@),
        no_angle("Examples:"@),
        no_angle("  fscript lecture.mp3"@),
        no_angle("  fscript lecture.mp3 notes/"@),
        no_angle("  fscript lecture.mp3 --text=plain"@),
        no_angle("  fscript lecture.mp3 --diarize lseend-dihard3"@),
        no_angle("  fscript lecture.mp3 -D --json --raw"@),
{
    reveal_strlit("Usage:");
    reveal_strlit("  fscript <media-or-url> [destination] [options]");
    reveal_strlit("Default:");
    reveal_strlit("  fscript <media-or-url>");
    reveal_strlit("    Default flags: --speakers --diarize coreml --clean --chunk 120 --overlap 2");
    reveal_strlit("    Accepts local audio/video files or remote media URLs; video inputs are transcribed from their audio stream.");
    reveal_strlit("    If `fluidaudiocli` is unavailable, warns and falls back to plain transcription.");
    reveal_strlit("Output:");
    reveal_strlit("Destination:");
    reveal_strlit("Diarization:");
    reveal_strlit("Remote input:");
    reveal_strlit("Chunking and model overrides:");
    reveal_strlit("Defaults summary:");
    reveal_strlit("Examples:");
    reveal_strlit("  fscript lecture.mp3");
    reveal_strlit("  fscript lecture.mp3 notes/");
    reveal_strlit("  fscript lecture.mp3 --text=plain");
    reveal_strlit("  fscript lecture.mp3 --diarize lseend-dihard3");
    reveal_strlit("  fscript lecture.mp3 -D --json --raw");
}

proof fn lemma_option_texts_plain()
    ensures
        no_angle("--speakers[=plain|timestamps]"@),
        no_angle("Speaker-aware transcript. Default output mode."@),
        no_angle("--text[=plain|timestamps]"@),
        no_angle("Transcript text; plain omits timestamps."@),
        no_angle("--json"@),
        no_angle("Full JSON result with timings and metadata."@),
        no_angle("--srt"@),
        no_angle("Experimental SubRip subtitle output."@),
        no_angle("--vtt"@),
        no_angle("Experimental WebVTT subtitle output."@),
        no_angle("[destination]"@),
        no_angle("Output file, output directory, or `-` / `--stdout`."@),
        no_angle("-o, --output PATH"@),
        no_angle("Explicit output path."@),
        no_angle("--stdout, -"@),
        no_angle("Write transcript contents to stdout."@),
        no_angle("--raw"@),
        no_angle("Disable repeated-word cleanup for this run."@),
        no_angle("-c, --clean"@),
        no_angle("Force cleaned output for this run."@),
        no_angle("-d, --diarize [coreml|lseend-dihard3]"@),
        no_angle("Enable diarization, optionally choosing the model."@),
        no_angle("-D, --no-diarization"@),
        no_angle("Disable diarization entirely."@),
        no_angle("-n, --num-speakers N"@),
        no_angle("Expected speaker count. CoreML only."@),
        no_angle("-t, --threshold N"@),
        no_angle("Decision threshold. ls-eend-dihard3 only."@),
        no_angle("--backend coreml|lseend-dihard3|none"@),
        no_angle("Legacy alias for older scripts."@),
        no_angle("-l, --local, --prefer-local-for-remote"@),
        no_angle("Always download audio and transcribe locally."@),
        no_angle("--chunk N, --chunk-seconds N"@),
        no_angle("Chunk length in seconds. Use 0 to disable."@),
        no_angle("--overlap N, --chunk-overlap-seconds N"@),
        no_angle("Chunk overlap in seconds."@),
        no_angle("--model-dir PATH"@),
        no_angle("Use an existing extracted model directory."@),
        no_angle("--model-package PATH"@),
        no_angle("Override the cached model tarball path."@),
        no_angle("--model-url URL"@),
        no_angle("Override the model download URL."@),
        no_angle("Output mode"@),
        no_angle("--speakers with timestamps."@),
        no_angle("Diarization"@),
        no_angle("coreml when `fluidaudiocli` is available."@),
        no_angle("ls-eend threshold"@),
        no_angle("0.3 when selected."@),
        no_angle("Cleaning"@),
        no_angle("On."@),
        no_angle("Chunking"@),
        no_angle("--chunk 120 with --overlap 2."@),
        no_angle("Model dir"@),
        no_angle("Model package"@),
{
    reveal_strlit("--speakers[=plain|timestamps]");
    reveal_strlit("Speaker-aware transcript. Default output mode.");
    reveal_strlit("--text[=plain|timestamps]");
    reveal_strlit("Transcript text; plain omits timestamps.");
    reveal_strlit("--json");
    reveal_strlit("Full JSON result with timings and metadata.");
    reveal_strlit("--srt");
    reveal_strlit("Experimental SubRip subtitle output.");
    reveal_strlit("--vtt");
    reveal_strlit("Experimental WebVTT subtitle output.");
    reveal_strlit("[destination]");
    reveal_strlit("Output file, output directory, or `-` / `--stdout`.");
    reveal_strlit("-o, --output PATH");
    reveal_strlit("Explicit output path.");
    reveal_strlit("--stdout, -");
    reveal_strlit("Write transcript contents to stdout.");
    reveal_strlit("--raw");
    reveal_strlit("Disable repeated-word cleanup for this run.");
    reveal_strlit("-c, --clean");
    reveal_strlit("Force cleaned output for this run.");
    reveal_strlit("-d, --diarize [coreml|lseend-dihard3]");
    reveal_strlit("Enable diarization, optionally choosing the model.");
    reveal_strlit("-D, --no-diarization");
    reveal_strlit("Disable diarization entirely.");
    reveal_strlit("-n, --num-speakers N");
    reveal_strlit("Expected speaker count. CoreML only.");
    reveal_strlit("-t, --threshold N");
    reveal_strlit("Decision threshold. ls-eend-dihard3 only.");
    reveal_strlit("--backend coreml|lseend-dihard3|none");
    reveal_strlit("Legacy alias for older scripts.");
    reveal_strlit("-l, --local, --prefer-local-for-remote");
    reveal_strlit("Always download audio and transcribe locally.");
    reveal_strlit("--chunk N, --chunk-seconds N");
    reveal_strlit("Chunk length in seconds. Use 0 to disable.");
    reveal_strlit("--overlap N, --chunk-overlap-seconds N");
    reveal_strlit("Chunk overlap in seconds.");
    reveal_strlit("--model-dir PATH");
    reveal_strlit("Use an existing extracted model directory.");
    reveal_strlit("--model-package PATH");
    reveal_strlit("Override the cached model tarball path.");
    reveal_strlit("--model-url URL");
    reveal_strlit("Override the model download URL.");
    reveal_strlit("Output mode");
    reveal_strlit("--speakers with timestamps.");
    reveal_strlit("Diarization");
    reveal_strlit("coreml when `fluidaudiocli` is available.");
    reveal_strlit("ls-eend threshold");
    reveal_strlit("0.3 when selected.");
    reveal_strlit("Cleaning");
    reveal_strlit("On.");
    reveal_strlit("Chunking");
    reveal_strlit("--chunk 120 with --overlap 2.");
    reveal_strlit("Model dir");
    reveal_strlit("Model package");
}

/// The help text never shows the old `<audio-or-url>` placeholder, unless
/// one of the model locations shown in it does.
pub proof fn lemma_usage_drops_audio_or_url(model_dir: Seq<char>, model_package: Seq<char>)
    requires
        !contains_seq(model_dir, "<audio-or-url>"@),
        !contains_seq(model_package, "<audio-or-url>"@),
    ensures
        !contains_seq(usage_spec(model_dir, model_package), "<audio-or-url>"@),
{
    let ls = usage_lines(model_dir, model_package);
    lemma_fixed_lines_plain();
    lemma_option_texts_plain();
    lemma_option_line_parts("--speakers[=plain|timestamps]"@, "Speaker-aware transcript. Default output mode."@);
    lemma_option_line_parts("--text[=plain|timestamps]"@, "Transcript text; plain omits timestamps."@);
    lemma_option_line_parts("--json"@, "Full JSON result with timings and metadata."@);
    lemma_option_line_parts("--srt"@, "Experimental SubRip subtitle output."@);
    lemma_option_line_parts("--vtt"@, "Experimental WebVTT subtitle output."@);
    lemma_option_line_parts("[destination]"@, "Output file, output directory, or `-` / `--stdout`."@);
    lemma_option_line_parts("-o, --output PATH"@, "Explicit output path."@);
    lemma_option_line_parts("--stdout, -"@, "Write transcript contents to stdout."@);
    lemma_option_line_parts("--raw"@, "Disable repeated-word cleanup for this run."@);
    lemma_option_line_parts("-c, --clean"@, "Force cleaned output for this run."@);
    lemma_option_line_parts("-d, --diarize [coreml|lseend-dihard3]"@, "Enable diarization, optionally choosing the model."@);
    lemma_option_line_parts("-D, --no-diarization"@, "Disable diarization entirely."@);
    lemma_option_line_parts("-n, --num-speakers N"@, "Expected speaker count. CoreML only."@);
    lemma_option_line_parts("-t, --threshold N"@, "Decision threshold. ls-eend-dihard3 only."@);
    lemma_option_line_parts("--backend coreml|lseend-dihard3|none"@, "Legacy alias for older scripts."@);
    lemma_option_line_parts("-l, --local, --prefer-local-for-remote"@, "Always download audio and transcribe locally."@);
    lemma_option_line_parts("--chunk N, --chunk-seconds N"@, "Chunk length in seconds. Use 0 to disable."@);
    lemma_option_line_parts("--overlap N, --chunk-overlap-seconds N"@, "Chunk overlap in seconds."@);
    lemma_option_line_parts("--model-dir PATH"@, "Use an existing extracted model directory."@);
    lemma_option_line_parts("--model-package PATH"@, "Override the cached model tarball path."@);
    lemma_option_line_parts("--model-url URL"@, "Override the model download URL."@);
    lemma_option_line_parts("Output mode"@, "--speakers with timestamps."@);
    lemma_option_line_parts("Diarization"@, "coreml when `fluidaudiocli` is available."@);
    lemma_option_line_parts("ls-eend threshold"@, "0.3 when selected."@);
    lemma_option_line_parts("Cleaning"@, "On."@);
    lemma_option_line_parts("Chunking"@, "--chunk 120 with --overlap 2."@);
    lemma_option_line_parts("Model dir"@, model_dir);
    lemma_option_line_parts("Model package"@, model_package);
    assert forall|k: int| 0 <= k < ls.len() implies !contains_seq(#[trigger] ls[k], old_placeholder()) by {
        if k == 1 || k == 4 {
            lemma_no_angle_a_free(ls[k]);
        } else if k == 46 {
            lemma_after_plain_prefix("  "@ + pad_right("Model dir"@, 44) + " "@, model_dir);
        } else if k == 47 {
            lemma_after_plain_prefix("  "@ + pad_right("Model package"@, 44) + " "@, model_package);
        } else {
            lemma_no_angle_free(ls[k]);
        }
    }
    lemma_join_lines_free(ls);
    reveal_strlit("\n");
    assert("\n"@ =~= seq!['\n']);
}

/// `fscript` and the version number.
pub fn version_text() -> (r: String)
    ensures
        r@ == "fscript "@ + VERSION@,
{
    let mut s = String::from_str("fscript ");
    append_str(&mut s, VERSION);
    s
}

} // verus!
