//! A walk over run-length encoded text that admits only texts on which the
//! RLE reader's integer arithmetic stays in range: every run count has at
//! most nine digits, a `y` state prefix is never followed by a state letter
//! past `O`, no `#CXRLE` line moves the origin, and the text is shorter than
//! 2^30 characters, so that no position can leave `i64`.
//!
//! Lines that start with `#`, `x ` or `x=` are skipped, as the reader skips
//! them; digits count toward one run across whitespace, line breaks and the
//! state prefixes `p` to `y`, as the reader counts them.

use vstd::prelude::*;
use vstd::string::StrSliceExecFns;

verus! {

/// What the walk remembers between two characters.
#[derive(Debug, Clone, Copy)]
pub struct RleGuard {
    /// The next character starts a line.
    pub line_start: bool,
    /// The current line is skipped.
    pub skipping: bool,
    /// The current line so far is a lone `x`: a header line if a space or
    /// `=` comes next, a data line otherwise.
    pub pending_x: bool,
    /// How many characters of `#CXRLE` the skipped line has matched from its
    /// start; 7 once it differs.
    pub tag: u8,
    /// Digits in the run count being read.
    pub digits: u8,
    /// The last state character read was the prefix `y`.
    pub after_y: bool,
}

/// The walk's state before the first character.
pub open spec fn guard_start() -> RleGuard {
    RleGuard {
        line_start: true,
        skipping: false,
        pending_x: false,
        tag: 0,
        digits: 0,
        after_y: false,
    }
}

/// Whitespace as `u8::is_ascii_whitespace` counts it.
pub open spec fn is_blank(c: char) -> bool {
    c == ' ' || c == '\t' || c == '\n' || c == '\r' || c == '\x0C'
}

/// Character `k` of `#CXRLE`, for `1 <= k < 6`.
pub open spec fn cxrle_char(k: u8) -> char {
    if k == 1 {
        'C'
    } else if k == 2 {
        'X'
    } else if k == 3 {
        'R'
    } else if k == 4 {
        'L'
    } else {
        'E'
    }
}

/// One character of a data line; `None` rejects the text.
pub open spec fn data_step(s: RleGuard, c: char) -> Option<RleGuard> {
    let s = RleGuard { line_start: c == '\n', ..s };
    if '0' <= c <= '9' {
        if s.digits >= 9 {
            None
        } else {
            Some(RleGuard { digits: (s.digits + 1) as u8, ..s })
        }
    } else if is_blank(c) {
        Some(s)
    } else if s.after_y && 'P' <= c <= 'X' {
        None
    } else {
        Some(
            RleGuard {
                after_y: c == 'y',
                digits: if 'p' <= c <= 'y' {
                    s.digits
                } else {
                    0
                },
                ..s
            },
        )
    }
}

/// One character of the text; `None` rejects the text.
pub open spec fn guard_step(s: RleGuard, c: char) -> Option<RleGuard> {
    if s.skipping {
        if c == '\n' {
            Some(RleGuard { line_start: true, skipping: false, tag: 0, ..s })
        } else if 1 <= s.tag < 6 && c == cxrle_char(s.tag) {
            if s.tag == 5 {
                None
            } else {
                Some(RleGuard { tag: (s.tag + 1) as u8, ..s })
            }
        } else {
            Some(RleGuard { tag: 7, ..s })
        }
    } else if s.pending_x {
        if c == ' ' || c == '=' {
            Some(RleGuard { pending_x: false, skipping: true, tag: 7, ..s })
        } else {
            match data_step(RleGuard { pending_x: false, ..s }, 'x') {
                None => None,
                Some(t) => data_step(t, c),
            }
        }
    } else if s.line_start && c == '#' {
        Some(RleGuard { line_start: false, skipping: true, tag: 1, ..s })
    } else if s.line_start && c == 'x' {
        Some(RleGuard { line_start: false, pending_x: true, ..s })
    } else {
        data_step(s, c)
    }
}

/// The walk over the first `n` characters of `text`.
pub open spec fn guard_walk(text: Seq<char>, n: int) -> Option<RleGuard>
    decreases n,
{
    if n <= 0 {
        Some(guard_start())
    } else {
        match guard_walk(text, n - 1) {
            None => None,
            Some(s) => guard_step(s, text[n - 1]),
        }
    }
}

/// Whether `text` is short enough and its walk admits every character.
pub open spec fn rle_guarded(text: Seq<char>) -> bool {
    text.len() < 0x4000_0000 && guard_walk(text, text.len() as int) is Some
}

fn data_step_exec(s: RleGuard, c: char) -> (r: Option<RleGuard>)
    ensures
        r == data_step(s, c),
{
    let s = RleGuard { line_start: c == '\n', ..s };
    if '0' <= c && c <= '9' {
        if s.digits >= 9 {
            None
        } else {
            Some(RleGuard { digits: s.digits + 1, ..s })
        }
    } else if c == ' ' || c == '\t' || c == '\n' || c == '\r' || c == '\x0C' {
        Some(s)
    } else if s.after_y && 'P' <= c && c <= 'X' {
        None
    } else {
        let digits = if 'p' <= c && c <= 'y' {
            s.digits
        } else {
            0
        };
        Some(RleGuard { after_y: c == 'y', digits, ..s })
    }
}

fn guard_step_exec(s: RleGuard, c: char) -> (r: Option<RleGuard>)
    ensures
        r == guard_step(s, c),
{
    if s.skipping {
        if c == '\n' {
            Some(RleGuard { line_start: true, skipping: false, tag: 0, ..s })
        } else if 1 <= s.tag && s.tag < 6 && c == cxrle_char_exec(s.tag) {
            if s.tag == 5 {
                None
            } else {
                Some(RleGuard { tag: s.tag + 1, ..s })
            }
        } else {
            Some(RleGuard { tag: 7, ..s })
        }
    } else if s.pending_x {
        if c == ' ' || c == '=' {
            Some(RleGuard { pending_x: false, skipping: true, tag: 7, ..s })
        } else {
            match data_step_exec(RleGuard { pending_x: false, ..s }, 'x') {
                None => None,
                Some(t) => data_step_exec(t, c),
            }
        }
    } else if s.line_start && c == '#' {
        Some(RleGuard { line_start: false, skipping: true, tag: 1, ..s })
    } else if s.line_start && c == 'x' {
        Some(RleGuard { line_start: false, pending_x: true, ..s })
    } else {
        data_step_exec(s, c)
    }
}

fn cxrle_char_exec(k: u8) -> (r: char)
    ensures
        r == cxrle_char(k),
{
    if k == 1 {
        'C'
    } else if k == 2 {
        'X'
    } else if k == 3 {
        'R'
    } else if k == 4 {
        'L'
    } else {
        'E'
    }
}

/// Whether the RLE reader can be handed `text` without any of its integer
/// counters leaving range, as `rle_guarded` describes.
pub fn rle_is_guarded(text: &str) -> (r: bool)
    ensures
        r == rle_guarded(text@),
{
    let n = text.unicode_len();
    if n >= 0x4000_0000 {
        return false;
    }
    let mut s = RleGuard {
        line_start: true,
        skipping: false,
        pending_x: false,
        tag: 0,
        digits: 0,
        after_y: false,
    };
    let mut i: usize = 0;
    while i < n
        invariant
            i <= n,
            n == text@.len(),
            guard_walk(text@, i as int) == Some(s),
        decreases n - i,
    {
        let c = text.get_char(i);
        match guard_step_exec(s, c) {
            None => {
                assert(guard_walk(text@, (i + 1) as int) is None);
                assert forall|m: int| i + 1 <= m <= n implies guard_walk(text@, m) is None by {
                    lemma_rejection_sticks(text@, (i + 1) as int, m);
                }
                return false;
            },
            Some(t) => {
                s = t;
            },
        }
        i = i + 1;
    }
    true
}

proof fn lemma_rejection_sticks(text: Seq<char>, a: int, b: int)
    requires
        0 <= a <= b,
        guard_walk(text, a) is None,
    ensures
        guard_walk(text, b) is None,
    decreases b - a,
{
    if b > a {
        lemma_rejection_sticks(text, a, b - 1);
    }
}

} // verus!
