//! Chunk progress: the bar drawn on a terminal, the coarse messages written
//! elsewhere, and the reporter's decisions between chunks.

use vstd::prelude::*;

use crate::text::{append_str, decimal, push_char, push_decimal};

verus! {

/// Width of the progress bar, in cells.
pub const PROGRESS_BAR_WIDTH: usize = 20;

/// `c` repeated `n` times.
pub open spec fn repeat_char(c: char, n: nat) -> Seq<char> {
    Seq::new(n, |_i: int| c)
}

/// Chunks already finished while chunk `current` of `total` runs.
pub open spec fn completed_chunks(current: nat, total: nat) -> nat {
    let done: nat = if current >= 1 {
        (current - 1) as nat
    } else {
        0
    };
    if done < total {
        done
    } else {
        total
    }
}

/// Filled cells of the bar: the finished share of the width, rounded down,
/// or a full bar when there are no chunks.
pub open spec fn filled_cells(current: nat, total: nat) -> nat {
    if total == 0 {
        PROGRESS_BAR_WIDTH as nat
    } else {
        completed_chunks(current, total) * (PROGRESS_BAR_WIDTH as nat) / total
    }
}

/// The bar: filled cells `█`, then empty cells `▒`.
pub open spec fn bar_spec(filled: nat) -> Seq<char> {
    repeat_char('█', filled) + repeat_char(
        '▒',
        if filled < PROGRESS_BAR_WIDTH {
            (PROGRESS_BAR_WIDTH - filled) as nat
        } else {
            0
        },
    )
}

/// `<prefix> <bar> transcribing chunk <current>/<total>`.
pub open spec fn chunk_progress_spec(prefix: Seq<char>, current: nat, total: nat) -> Seq<char> {
    prefix + " "@ + bar_spec(filled_cells(current, total)) + " transcribing chunk "@ + decimal(
        current,
    ) + "/"@ + decimal(total)
}

fn push_repeat(s: &mut String, c: char, n: usize)
    ensures
        final(s)@ == old(s)@ + repeat_char(c, n as nat),
{
    let ghost start = s@;
    let mut i: usize = 0;
    while i < n
        invariant
            i <= n,
            s@ == start + repeat_char(c, i as nat),
        decreases n - i,
    {
        push_char(s, c);
        i = i + 1;
        assert(repeat_char(c, i as nat) == repeat_char(c, (i - 1) as nat).push(c));
    }
}

fn append_bar(s: &mut String, filled: usize)
    requires
        filled <= PROGRESS_BAR_WIDTH,
    ensures
        final(s)@ == old(s)@ + bar_spec(filled as nat),
{
    let ghost start = s@;
    push_repeat(s, '█', filled);
    push_repeat(s, '▒', PROGRESS_BAR_WIDTH - filled);
    assert(s@ == start + bar_spec(filled as nat));
}

/// One line of the animated progress display: the spinner frame, the bar of
/// finished chunks, and which chunk is being transcribed.
pub fn render_chunk_progress(prefix: &str, current: usize, total: usize) -> (r: String)
    ensures
        r@ == chunk_progress_spec(prefix@, current as nat, total as nat),
{
    let done: usize = if current >= 1 {
        current - 1
    } else {
        0
    };
    let completed: usize = if done < total {
        done
    } else {
        total
    };
    let filled: usize = if total == 0 {
        PROGRESS_BAR_WIDTH
    } else {
        let wide = (completed as u128) * 20u128 / (total as u128);
        assert(wide <= 20) by (nonlinear_arith)
            requires
                wide as int == (completed as int) * 20 / (total as int),
                completed <= total,
                total > 0,
        ;
        wide as usize
    };
    assert(filled as nat == filled_cells(current as nat, total as nat));
    let mut s = String::new();
    append_str(&mut s, prefix);
    append_str(&mut s, " ");
    append_bar(&mut s, filled);
    append_str(&mut s, " transcribing chunk ");
    push_decimal(&mut s, current as u64);
    append_str(&mut s, "/");
    push_decimal(&mut s, total as u64);
    s
}

/// `✓ <full bar> transcribing chunk <total>/<total>`.
pub open spec fn chunk_progress_done_spec(total: nat) -> Seq<char> {
    "✓ "@ + repeat_char('█', PROGRESS_BAR_WIDTH as nat) + " transcribing chunk "@ + decimal(total)
        + "/"@ + decimal(total)
}

/// The final line of the animated display.
pub fn render_chunk_progress_done(total: usize) -> (r: String)
    ensures
        r@ == chunk_progress_done_spec(total as nat),
{
    let mut s = String::new();
    append_str(&mut s, "✓ ");
    push_repeat(&mut s, '█', PROGRESS_BAR_WIDTH);
    append_str(&mut s, " transcribing chunk ");
    push_decimal(&mut s, total as u64);
    append_str(&mut s, "/");
    push_decimal(&mut s, total as u64);
    s
}

/// `transcribing <total> chunks...`
pub fn render_noninteractive_start(total: usize) -> (r: String)
    ensures
        r@ == "transcribing "@ + decimal(total as nat) + " chunks..."@,
{
    let mut s = String::new();
    append_str(&mut s, "transcribing ");
    push_decimal(&mut s, total as u64);
    append_str(&mut s, " chunks...");
    s
}

/// `transcribing chunk <current>/<total>`
pub fn render_noninteractive_chunk(current: usize, total: usize) -> (r: String)
    ensures
        r@ == "transcribing chunk "@ + decimal(current as nat) + "/"@ + decimal(total as nat),
{
    let mut s = String::new();
    append_str(&mut s, "transcribing chunk ");
    push_decimal(&mut s, current as u64);
    append_str(&mut s, "/");
    push_decimal(&mut s, total as u64);
    s
}

/// `done transcribing <total> chunks`
pub fn render_noninteractive_done(total: usize) -> (r: String)
    ensures
        r@ == "done transcribing "@ + decimal(total as nat) + " chunks"@,
{
    let mut s = String::new();
    append_str(&mut s, "done transcribing ");
    push_decimal(&mut s, total as u64);
    append_str(&mut s, " chunks");
    s
}

// ---------------------------------------------------------------------------
// The reporter
// ---------------------------------------------------------------------------

/// Frames of the terminal spinner, in order.
pub open spec fn spinner_frames() -> Seq<Seq<char>> {
    seq!["⠋"@, "⠙"@, "⠹"@, "⠸"@, "⠼"@, "⠴"@, "⠦"@, "⠧"@, "⠇"@, "⠏"@]
}

/// The spinner frame shown at step `index` (the frames repeat).
pub fn spinner_frame(index: usize) -> (r: &'static str)
    ensures
        r@ == spinner_frames()[(index % 10) as int],
{
    match index % 10 {
        0 => "⠋",
        1 => "⠙",
        2 => "⠹",
        3 => "⠸",
        4 => "⠼",
        5 => "⠴",
        6 => "⠦",
        7 => "⠧",
        8 => "⠇",
        _ => "⠏",
    }
}

/// `current` brought into `1..=max(total, 1)`.
pub open spec fn clamp_chunk_spec(current: nat, total: nat) -> nat {
    let hi: nat = if total >= 1 {
        total
    } else {
        1
    };
    if current < 1 {
        1
    } else if current > hi {
        hi
    } else {
        current
    }
}

/// What the progress reporter keeps: how many chunks there are, which one
/// runs, and whether a terminal shows the animated bar.
pub struct ChunkProgressReporter {
    pub total_chunks: usize,
    pub current_chunk: usize,
    pub interactive: bool,
}

impl ChunkProgressReporter {
    /// The reporter's invariant: the running chunk is within
    /// `1..=max(total, 1)`.
    pub open spec fn wf(&self) -> bool {
        1 <= self.current_chunk && self.current_chunk as nat == clamp_chunk_spec(
            self.current_chunk as nat,
            self.total_chunks as nat,
        )
    }

    /// Starts at the first chunk.  Without a terminal, the start message is
    /// returned for printing; with one, the caller animates `frame_line`.
    pub fn start_with_terminal(total_chunks: usize, stderr_is_terminal: bool) -> (r: (
        ChunkProgressReporter,
        Option<String>,
    ))
        ensures
            r.0.wf(),
            r.0.total_chunks == total_chunks,
            r.0.current_chunk == 1,
            r.0.interactive == stderr_is_terminal,
            match r.1 {
                Some(m) => !stderr_is_terminal && m@ == "transcribing "@ + decimal(
                    total_chunks as nat,
                ) + " chunks..."@,
                None => stderr_is_terminal,
            },
    {
        let reporter = ChunkProgressReporter {
            total_chunks,
            current_chunk: 1,
            interactive: stderr_is_terminal,
        };
        if stderr_is_terminal {
            (reporter, None)
        } else {
            (reporter, Some(render_noninteractive_start(total_chunks)))
        }
    }

    /// Moves to chunk `current` (clamped to the chunks that exist).  Without
    /// a terminal, the message for the new chunk is returned for printing.
    pub fn set_current_chunk(&mut self, current: usize) -> (r: Option<String>)
        ensures
            final(self).wf(),
            final(self).total_chunks == old(self).total_chunks,
            final(self).interactive == old(self).interactive,
            final(self).current_chunk as nat == clamp_chunk_spec(
                current as nat,
                old(self).total_chunks as nat,
            ),
            match r {
                Some(m) => !old(self).interactive && m@ == "transcribing chunk "@ + decimal(
                    final(self).current_chunk as nat,
                ) + "/"@ + decimal(old(self).total_chunks as nat),
                None => old(self).interactive,
            },
    {
        let hi = if self.total_chunks >= 1 {
            self.total_chunks
        } else {
            1
        };
        let c = if current < 1 {
            1
        } else if current > hi {
            hi
        } else {
            current
        };
        self.current_chunk = c;
        if self.interactive {
            None
        } else {
            Some(render_noninteractive_chunk(c, self.total_chunks))
        }
    }

    /// The animated line at spinner step `frame_index`.
    pub fn frame_line(&self, frame_index: usize) -> (r: String)
        ensures
            r@ == chunk_progress_spec(
                spinner_frames()[(frame_index % 10) as int],
                self.current_chunk as nat,
                self.total_chunks as nat,
            ),
    {
        render_chunk_progress(spinner_frame(frame_index), self.current_chunk, self.total_chunks)
    }

    /// Marks the last chunk as running and gives the closing line: the full
    /// bar on a terminal, the final message otherwise.
    pub fn finish(&mut self) -> (r: String)
        ensures
            final(self).total_chunks == old(self).total_chunks,
            final(self).interactive == old(self).interactive,
            final(self).current_chunk as nat == (if old(self).total_chunks >= 1 {
                old(self).total_chunks as nat
            } else {
                1
            }),
            r@ == if old(self).interactive {
                chunk_progress_done_spec(old(self).total_chunks as nat)
            } else {
                "done transcribing "@ + decimal(old(self).total_chunks as nat) + " chunks"@
            },
    {
        self.current_chunk = if self.total_chunks >= 1 {
            self.total_chunks
        } else {
            1
        };
        if self.interactive {
            render_chunk_progress_done(self.total_chunks)
        } else {
            render_noninteractive_done(self.total_chunks)
        }
    }
}

} // verus!

verus! {

/// The bar always spans its full width, and its filled part never shrinks
/// as later chunks start.
pub proof fn lemma_bar_width(current: nat, later: nat, total: nat)
    requires
        current <= later,
    ensures
        bar_spec(filled_cells(current, total)).len() == PROGRESS_BAR_WIDTH,
        filled_cells(current, total) <= filled_cells(later, total),
{
    if total > 0 {
        let c = completed_chunks(current, total);
        let d = completed_chunks(later, total);
        assert(c * 20 / total <= 20) by (nonlinear_arith)
            requires
                c <= total,
                total > 0,
        ;
        assert(c * 20 / total <= d * 20 / total) by (nonlinear_arith)
            requires
                c <= d,
                total > 0,
        ;
    }
}

} // verus!
