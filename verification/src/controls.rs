//! Playback keys shared by the one-shot speaker and the reader UI, and the
//! short texts that report playback: times as m:ss, rates as multiples.
//!
//! Left / right skip 15 s (30 s with shift); an arrow that auto-repeats, or
//! comes again within the hold window, scrubs at 3x in its direction until
//! the keys stop for the scrub timeout. Up / down change the rate by a
//! quarter step.

use vstd::prelude::*;
use crate::text::{decimal, decimal_string, push_str, owned};
use crate::transport::SAMPLE_RATE;

verus! {

/// Two presses of one arrow closer than this (ms) mean it is held.
pub const HOLD_WINDOW_MS: u64 = 250;

/// Scrubbing ends when no arrow event came for this long (ms).
pub const SCRUB_TIMEOUT_MS: u64 = 300;

/// What an arrow key does to playback.
#[derive(Debug, PartialEq, Eq, Clone, Copy)]
pub enum ArrowAction {
    /// Scrub at 3x: 1 forward, -1 backward.
    Scrub(i8),
    /// Skip this many seconds (negative: back).
    Skip(i64),
}

/// An arrow counts as held when the terminal reports a repeat, or when the
/// same arrow came less than the hold window ago.
pub open spec fn holding(repeat: bool, since_same_arrow_ms: Option<u64>) -> bool {
    repeat || (since_same_arrow_ms matches Some(ms) && ms < HOLD_WINDOW_MS)
}

pub open spec fn arrow_action_spec(
    right: bool,
    repeat: bool,
    since_same_arrow_ms: Option<u64>,
    shift: bool,
) -> ArrowAction {
    let dir: int = if right { 1 } else { -1 };
    if holding(repeat, since_same_arrow_ms) {
        ArrowAction::Scrub(dir as i8)
    } else {
        ArrowAction::Skip((dir * (if shift { 30int } else { 15int })) as i64)
    }
}

/// The action of a left (`right == false`) or right arrow. `repeat`: the
/// terminal flagged it as auto-repeat; `since_same_arrow_ms`: time since the
/// previous press of the same arrow, if that was the last arrow pressed.
pub fn arrow_action(right: bool, repeat: bool, since_same_arrow_ms: Option<u64>, shift: bool) -> (r:
    ArrowAction)
    ensures
        r == arrow_action_spec(right, repeat, since_same_arrow_ms, shift),
{
    let dir: i8 = if right { 1 } else { -1 };
    let held = repeat || match since_same_arrow_ms {
        Some(ms) => ms < HOLD_WINDOW_MS,
        None => false,
    };
    if held {
        ArrowAction::Scrub(dir)
    } else {
        let secs: i64 = if shift { 30 } else { 15 };
        ArrowAction::Skip(dir as i64 * secs)
    }
}

/// The last arrow pressed (right?, at which millisecond), and the moment a
/// scrub started by holding ends unless the arrow comes again.
pub struct ArrowMemory {
    pub last: Option<(bool, u64)>,
    pub scrub_until: u64,
}

/// Time since the previous press of this same arrow, when the previous
/// arrow pressed was this one (a clock never runs backwards: 0 at least).
pub open spec fn since_same(last: Option<(bool, u64)>, right: bool, now: u64) -> Option<u64> {
    match last {
        Some((r, t)) => if r == right {
            Some(if now >= t { (now - t) as u64 } else { 0u64 })
        } else {
            None
        },
        None => None,
    }
}

impl ArrowMemory {
    pub fn new(now: u64) -> (r: ArrowMemory)
        ensures
            r.last is None,
            r.scrub_until == now,
    {
        ArrowMemory { last: None, scrub_until: now }
    }

    /// An arrow press at `now` (ms): what it does, remembered for the next.
    pub fn press(&mut self, right: bool, repeat: bool, shift: bool, now: u64) -> (r: ArrowAction)
        ensures
            r == arrow_action_spec(right, repeat, since_same(old(self).last, right, now), shift),
            final(self).last == Some((right, now)),
            r is Scrub ==> final(self).scrub_until == now.saturating_add(SCRUB_TIMEOUT_MS),
            r is Skip ==> final(self).scrub_until == old(self).scrub_until,
    {
        let since: Option<u64> = match self.last {
            Some((r, t)) => if r == right {
                Some(now.saturating_sub(t))
            } else {
                None
            },
            None => None,
        };
        let a = arrow_action(right, repeat, since, shift);
        if let ArrowAction::Scrub(_) = a {
            self.scrub_until = now.saturating_add(SCRUB_TIMEOUT_MS);
        }
        self.last = Some((right, now));
        a
    }

    /// Whether a scrub started by holding has run out at `now`.
    pub fn scrub_over(&self, now: u64) -> (r: bool)
        ensures
            r == (now > self.scrub_until),
    {
        now > self.scrub_until
    }
}

/// Rate change, in quarter steps, of the up (+) and down (-) arrows.
pub fn rate_step(up: bool) -> (r: i32)
    ensures
        r == (if up { 1int } else { -1int }),
{
    if up { 1 } else { -1 }
}

/// The status note shown for an arrow action.
pub open spec fn arrow_note(a: ArrowAction) -> Seq<char> {
    match a {
        ArrowAction::Scrub(d) => if d > 0 { "⏩ 3x"@ } else { "⏪ 3x"@ },
        ArrowAction::Skip(s) => if s >= 30 {
            "→ 30s"@
        } else if s > 0 {
            "→ 15s"@
        } else if s <= -30 {
            "← 30s"@
        } else {
            "← 15s"@
        },
    }
}

pub fn arrow_note_text(a: ArrowAction) -> (r: String)
    ensures
        r@ == arrow_note(a),
{
    match a {
        ArrowAction::Scrub(d) => if d > 0 { owned("⏩ 3x") } else { owned("⏪ 3x") },
        ArrowAction::Skip(s) => if s >= 30 {
            owned("→ 30s")
        } else if s > 0 {
            owned("→ 15s")
        } else if s <= -30 {
            owned("← 30s")
        } else {
            owned("← 15s")
        },
    }
}

/// Two decimal digits, zero-padded (`{:02}` of a number below 100).
pub open spec fn two_digits(n: nat) -> Seq<char> {
    if n < 10 {
        seq!['0'] + decimal(n)
    } else {
        decimal(n)
    }
}

/// A sample position as minutes and seconds, `m:ss`.
pub open spec fn clock(samples: nat) -> Seq<char> {
    let s = samples / (SAMPLE_RATE as nat);
    decimal(s / 60) + seq![':'] + two_digits(s % 60)
}

/// `m:ss` of a sample position (24 kHz).
pub fn fmt_time(samples: u64) -> (r: String)
    ensures
        r@ == clock(samples as nat),
{
    let s = samples / 24000;
    let mut r = decimal_string(s / 60);
    r.push(':');
    let sec = s % 60;
    if sec < 10 {
        r.push('0');
    }
    let tail = decimal_string(sec);
    push_str(&mut r, &tail);
    proof {
        if sec < 10 {
            assert(r@ =~= decimal((s / 60) as nat) + seq![':'] + (seq!['0'] + decimal(sec as nat)));
        } else {
            assert(r@ =~= decimal((s / 60) as nat) + seq![':'] + decimal(sec as nat));
        }
    }
    r
}

/// A rate of `q` quarters as a plain number: whole part, then ".25", ".5"
/// or ".75" where there is a fraction (how `{}` shows the multiple).
pub open spec fn rate_plain(q: nat) -> Seq<char> {
    decimal(q / 4) + (if q % 4 == 1 {
        ".25"@
    } else if q % 4 == 2 {
        ".5"@
    } else if q % 4 == 3 {
        ".75"@
    } else {
        Seq::<char>::empty()
    })
}

/// A rate of `q` quarters with two decimals (how `{:.2}` shows it).
pub open spec fn rate_fixed(q: nat) -> Seq<char> {
    decimal(q / 4) + (if q % 4 == 1 {
        ".25"@
    } else if q % 4 == 2 {
        ".50"@
    } else if q % 4 == 3 {
        ".75"@
    } else {
        ".00"@
    })
}

pub fn rate_plain_text(q: u32) -> (r: String)
    ensures
        r@ == rate_plain(q as nat),
{
    let mut r = decimal_string((q / 4) as u64);
    let f = q % 4;
    if f == 1 {
        push_str(&mut r, ".25");
    } else if f == 2 {
        push_str(&mut r, ".5");
    } else if f == 3 {
        push_str(&mut r, ".75");
    }
    proof {
        if f == 0 {
            assert(r@ =~= rate_plain(q as nat));
        }
    }
    r
}

pub fn rate_fixed_text(q: u32) -> (r: String)
    ensures
        r@ == rate_fixed(q as nat),
{
    let mut r = decimal_string((q / 4) as u64);
    let f = q % 4;
    if f == 1 {
        push_str(&mut r, ".25");
    } else if f == 2 {
        push_str(&mut r, ".50");
    } else if f == 3 {
        push_str(&mut r, ".75");
    } else {
        push_str(&mut r, ".00");
    }
    r
}

/// The one-shot speaker's status line: the cursor returns to the line's
/// start and clears it, then `msg  [pos / len]`.
pub open spec fn status_line_of(msg: Seq<char>, pos: nat, len: nat) -> Seq<char> {
    "\r\x1b[K"@ + msg + "  ["@ + clock(pos) + " / "@ + clock(len) + "]"@
}

pub fn status_line(msg: &str, pos: u64, len: u64) -> (r: String)
    ensures
        r@ == status_line_of(msg@, pos as nat, len as nat),
{
    let mut r = owned("\r\x1b[K");
    push_str(&mut r, msg);
    push_str(&mut r, "  [");
    let p = fmt_time(pos);
    push_str(&mut r, &p);
    push_str(&mut r, " / ");
    let l = fmt_time(len);
    push_str(&mut r, &l);
    push_str(&mut r, "]");
    r
}

} // verus!
