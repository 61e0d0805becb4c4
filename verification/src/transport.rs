//! The playback cursor over a growing sample buffer.
//!
//! Synthesis appends samples while the cursor moves through them. Skipping
//! moves the cursor, clamped to what has been generated (and, while
//! synthesis runs, kept half a second behind its frontier); scrubbing steps
//! three samples at a time, forward or backward; a playback rate other than
//! 1x is served block by block through a time stretcher. Positions are
//! sample indices; the rate is held in quarter steps (4 = 1x).

use vstd::prelude::*;

verus! {

/// Samples per second of everything the player holds.
pub const SAMPLE_RATE: u32 = 24000;

/// Samples a skip or scrub keeps behind live synthesis (half a second).
pub const FRONTIER_MARGIN: u64 = 12000;

/// Stretched output is produced in blocks of this many samples.
pub const OUT_BLOCK: u64 = 1024;

/// Samples per step while scrubbing (3x).
pub const SCRUB_STEP: i64 = 3;

/// Playback rate bounds, in quarters (0.25x to 3x).
pub const MIN_RATE_Q: u32 = 1;
pub const MAX_RATE_Q: u32 = 12;
pub const NORMAL_RATE_Q: u32 = 4;

pub struct Transport {
    pos: u64,
    len: u64,
    rate_q: u32,
    scrub: i8,
    synth_done: bool,
    seek_gen: u64,
}

/// One step of plain (1x or scrubbing) playback.
#[derive(Debug, PartialEq, Eq, Clone, Copy)]
pub enum PlainStep {
    /// Play the sample at this index.
    Sample(u64),
    /// Caught up with synthesis: play silence and wait for more audio.
    Silence,
    /// Played past the end of finished audio.
    End,
}

/// What the stretched player should do next.
#[derive(Debug, PartialEq, Eq, Clone, Copy)]
pub enum StretchStep {
    /// Not enough audio yet: play silence without moving.
    Hold,
    /// Stretch the input `from..to` into `out_len` output samples.
    Block { from: u64, to: u64, out_len: u64 },
    /// Drain the stretcher's latency into one output block.
    Flush,
    /// Nothing more to play.
    End,
}

/// `v` clamped into `lo..=hi` (with `lo <= hi`).
pub open spec fn clamp(v: int, lo: int, hi: int) -> int {
    if v < lo {
        lo
    } else if v > hi {
        hi
    } else {
        v
    }
}

impl Transport {
    #[verifier::type_invariant]
    spec fn inv(self) -> bool {
        &&& self.pos <= self.len
        &&& MIN_RATE_Q <= self.rate_q <= MAX_RATE_Q
    }

    pub closed spec fn pos_spec(self) -> nat {
        self.pos as nat
    }

    pub closed spec fn len_spec(self) -> nat {
        self.len as nat
    }

    pub closed spec fn rate_q_spec(self) -> nat {
        self.rate_q as nat
    }

    pub closed spec fn scrub_spec(self) -> int {
        self.scrub as int
    }

    pub closed spec fn done_spec(self) -> bool {
        self.synth_done
    }

    pub closed spec fn gen_spec(self) -> u64 {
        self.seek_gen
    }

    /// How far forward the cursor may go: the end once synthesis is done,
    /// otherwise half a second behind the synthesis frontier.
    pub open spec fn max_pos_spec(self) -> nat {
        if self.done_spec() {
            self.len_spec()
        } else if self.len_spec() >= FRONTIER_MARGIN {
            (self.len_spec() - FRONTIER_MARGIN) as nat
        } else {
            0
        }
    }

    /// Everything a `Transport` keeps: the cursor never passes the audio
    /// generated so far, and the rate stays between 0.25x and 3x.
    pub open spec fn valid(self) -> bool {
        &&& self.pos_spec() <= self.len_spec()
        &&& MIN_RATE_Q <= self.rate_q_spec() <= MAX_RATE_Q
        &&& self.max_pos_spec() <= self.len_spec()
    }

    pub fn new() -> (t: Transport)
        ensures
            t.pos_spec() == 0,
            t.len_spec() == 0,
            t.rate_q_spec() == NORMAL_RATE_Q,
            t.scrub_spec() == 0,
            !t.done_spec(),
            t.gen_spec() == 0,
            t.valid(),
    {
        Transport { pos: 0, len: 0, rate_q: NORMAL_RATE_Q, scrub: 0, synth_done: false, seek_gen: 0 }
    }

    /// Synthesis appended `n` samples.
    pub fn append(&mut self, n: u64)
        requires
            old(self).len_spec() + n <= u64::MAX,
        ensures
            final(self).valid(),
            final(self).len_spec() == old(self).len_spec() + n,
            final(self).pos_spec() == old(self).pos_spec(),
            final(self).rate_q_spec() == old(self).rate_q_spec(),
            final(self).scrub_spec() == old(self).scrub_spec(),
            final(self).done_spec() == old(self).done_spec(),
            final(self).gen_spec() == old(self).gen_spec(),
    {
        proof {
            use_type_invariant(&*self);
        }
        self.len = self.len + n;
    }

    pub fn len(&self) -> (r: u64)
        ensures
            r == self.len_spec(),
    {
        self.len
    }

    pub fn pos(&self) -> (r: u64)
        ensures
            r == self.pos_spec(),
    {
        self.pos
    }

    pub fn rate_quarters(&self) -> (r: u32)
        ensures
            r == self.rate_q_spec(),
    {
        self.rate_q
    }

    pub fn scrubbing(&self) -> (r: i8)
        ensures
            r == self.scrub_spec(),
    {
        self.scrub
    }

    pub fn synth_done(&self) -> (r: bool)
        ensures
            r == self.done_spec(),
    {
        self.synth_done
    }

    pub fn seek_gen(&self) -> (r: u64)
        ensures
            r == self.gen_spec(),
    {
        self.seek_gen
    }

    /// Synthesis has finished appending.
    pub fn set_synth_done(&mut self, done: bool)
        ensures
            final(self).valid(),
            final(self).done_spec() == done,
            final(self).len_spec() == old(self).len_spec(),
            final(self).pos_spec() == old(self).pos_spec(),
            final(self).rate_q_spec() == old(self).rate_q_spec(),
            final(self).scrub_spec() == old(self).scrub_spec(),
            final(self).gen_spec() == old(self).gen_spec(),
    {
        proof {
            use_type_invariant(&*self);
        }
        self.synth_done = done;
    }

    pub fn set_scrub(&mut self, dir: i8)
        ensures
            final(self).valid(),
            final(self).scrub_spec() == dir,
            final(self).len_spec() == old(self).len_spec(),
            final(self).pos_spec() == old(self).pos_spec(),
            final(self).rate_q_spec() == old(self).rate_q_spec(),
            final(self).done_spec() == old(self).done_spec(),
            final(self).gen_spec() == old(self).gen_spec(),
    {
        proof {
            use_type_invariant(&*self);
        }
        self.scrub = dir;
    }

    pub fn max_pos(&self) -> (r: u64)
        ensures
            r == self.max_pos_spec(),
    {
        if self.synth_done {
            self.len
        } else if self.len >= FRONTIER_MARGIN {
            self.len - FRONTIER_MARGIN
        } else {
            0
        }
    }

    /// Where a skip of `secs` seconds lands: clamped to `0..=max_pos`.
    pub open spec fn skip_target(self, secs: int) -> nat {
        clamp(self.pos_spec() + secs * SAMPLE_RATE, 0, self.max_pos_spec() as int) as nat
    }

    /// Move the cursor by `secs` seconds (negative = back), clamped to the
    /// generated audio.
    pub fn skip(&mut self, secs: i64)
        ensures
            final(self).valid(),
            final(self).pos_spec() == old(self).skip_target(secs as int),
            final(self).pos_spec() <= old(self).max_pos_spec(),
            final(self).gen_spec() == old(self).gen_spec().wrapping_add(1),
            final(self).len_spec() == old(self).len_spec(),
            final(self).rate_q_spec() == old(self).rate_q_spec(),
            final(self).scrub_spec() == old(self).scrub_spec(),
            final(self).done_spec() == old(self).done_spec(),
    {
        proof {
            use_type_invariant(&*self);
        }
        let max = self.max_pos();
        let target: i128 = self.pos as i128 + (secs as i128) * 24000i128;
        let p: u64 = if target < 0 {
            0
        } else if target > max as i128 {
            max
        } else {
            target as u64
        };
        self.pos = p;
        self.seek_gen = self.seek_gen.wrapping_add(1);
    }

    /// Jump to the end of generated audio (stops the current read).
    pub fn jump_to_end(&mut self)
        ensures
            final(self).valid(),
            final(self).pos_spec() == old(self).len_spec(),
            final(self).gen_spec() == old(self).gen_spec().wrapping_add(1),
            final(self).len_spec() == old(self).len_spec(),
            final(self).rate_q_spec() == old(self).rate_q_spec(),
            final(self).scrub_spec() == old(self).scrub_spec(),
            final(self).done_spec() == old(self).done_spec(),
    {
        proof {
            use_type_invariant(&*self);
        }
        self.pos = self.len;
        self.seek_gen = self.seek_gen.wrapping_add(1);
    }

    /// Change the rate by `delta_q` quarters, clamped to 0.25x..3x. Returns
    /// the new rate in quarters.
    pub fn adjust_rate(&mut self, delta_q: i32) -> (r: u32)
        ensures
            final(self).valid(),
            r == final(self).rate_q_spec(),
            r == clamp(old(self).rate_q_spec() + delta_q, MIN_RATE_Q as int, MAX_RATE_Q as int),
            final(self).len_spec() == old(self).len_spec(),
            final(self).pos_spec() == old(self).pos_spec(),
            final(self).scrub_spec() == old(self).scrub_spec(),
            final(self).done_spec() == old(self).done_spec(),
            final(self).gen_spec() == old(self).gen_spec(),
    {
        proof {
            use_type_invariant(&*self);
        }
        let want: i64 = self.rate_q as i64 + delta_q as i64;
        let r: u32 = if want < MIN_RATE_Q as i64 {
            MIN_RATE_Q
        } else if want > MAX_RATE_Q as i64 {
            MAX_RATE_Q
        } else {
            want as u32
        };
        self.rate_q = r;
        r
    }

    /// Whether playback steps sample by sample (scrubbing, or 1x) rather
    /// than through the time stretcher.
    pub open spec fn plays_plain_spec(self) -> bool {
        self.scrub_spec() != 0 || self.rate_q_spec() == NORMAL_RATE_Q
    }

    pub fn plays_plain(&self) -> (r: bool)
        ensures
            r == self.plays_plain_spec(),
    {
        self.scrub != 0 || self.rate_q == NORMAL_RATE_Q
    }

    /// One sample step of plain playback: forward one sample, or three
    /// (either way) while scrubbing. Scrubbing back into the start holds at
    /// the start and stops the scrub; scrubbing forward into the frontier
    /// drops back to normal playback there; reaching the end of unfinished
    /// audio waits in silence, of finished audio ends.
    pub open spec fn plain_target(self) -> int {
        let step = if self.scrub_spec() != 0 {
            SCRUB_STEP * self.scrub_spec()
        } else {
            1
        };
        let p0 = self.pos_spec() + step;
        let p1 = if p0 < 0 {
            0
        } else {
            p0
        };
        if self.scrub_spec() > 0 && p1 >= self.max_pos_spec() {
            self.max_pos_spec() as int
        } else {
            p1
        }
    }

    pub open spec fn plain_scrub_after(self) -> int {
        let step = if self.scrub_spec() != 0 {
            SCRUB_STEP * self.scrub_spec()
        } else {
            1
        };
        let p0 = self.pos_spec() + step;
        let s1 = if p0 < 0 {
            0
        } else {
            self.scrub_spec()
        };
        let p1 = if p0 < 0 {
            0
        } else {
            p0
        };
        if self.scrub_spec() > 0 && p1 >= self.max_pos_spec() {
            0
        } else {
            s1
        }
    }

    pub fn step_plain(&mut self) -> (r: PlainStep)
        ensures
            final(self).valid(),
            final(self).scrub_spec() == old(self).plain_scrub_after(),
            final(self).len_spec() == old(self).len_spec(),
            final(self).rate_q_spec() == old(self).rate_q_spec(),
            final(self).done_spec() == old(self).done_spec(),
            final(self).gen_spec() == old(self).gen_spec(),
            old(self).plain_target() < old(self).len_spec() ==> r == PlainStep::Sample(
                old(self).plain_target() as u64,
            ) && final(self).pos_spec() == old(self).plain_target(),
            old(self).plain_target() >= old(self).len_spec() && old(self).done_spec() ==> r
                == PlainStep::End && final(self).pos_spec() == old(self).pos_spec(),
            old(self).plain_target() >= old(self).len_spec() && !old(self).done_spec() ==> r
                == PlainStep::Silence && final(self).pos_spec() == old(self).len_spec(),
            r matches PlainStep::Sample(i) ==> i < final(self).len_spec(),
            old(self).scrub_spec() == 0 && old(self).pos_spec() + 1 < old(self).len_spec() ==> r
                == PlainStep::Sample((old(self).pos_spec() + 1) as u64),
            old(self).scrub_spec() == 1 && old(self).pos_spec() + 3 < old(self).max_pos_spec() ==> r
                == PlainStep::Sample((old(self).pos_spec() + 3) as u64) && final(self).scrub_spec() == 1,
            old(self).scrub_spec() == -1 && old(self).pos_spec() >= 3 ==> r == PlainStep::Sample(
                (old(self).pos_spec() - 3) as u64,
            ) && final(self).scrub_spec() == -1,
    {
        proof {
            use_type_invariant(&*self);
        }
        let scrub = self.scrub;
        let step: i64 = if scrub != 0 {
            SCRUB_STEP * scrub as i64
        } else {
            1
        };
        let mut p: i128 = self.pos as i128 + step as i128;
        if p < 0 {
            p = 0;
            self.scrub = 0;
        }
        let max = self.max_pos();
        if scrub > 0 && p >= max as i128 {
            self.scrub = 0;
            p = max as i128;
        }
        if p >= self.len as i128 {
            if self.synth_done {
                return PlainStep::End;
            }
            self.pos = self.len;
            return PlainStep::Silence;
        }
        self.pos = p as u64;
        PlainStep::Sample(p as u64)
    }

    /// Input samples consumed per output block at rate `q` quarters
    /// (`round(1024 * rate)`).
    pub open spec fn block_need(q: nat) -> nat {
        256 * q
    }

    /// Output samples for `n` input samples at rate `q` quarters: `n / rate`
    /// rounded half up, at least one.
    pub open spec fn stretched_len(n: nat, q: nat) -> nat {
        let r = (8 * n + q) / (2 * q);
        if r == 0 {
            1
        } else {
            r as nat
        }
    }

    /// Plan the next stretched block (the stretcher's output queue being
    /// empty). `flushed`: the stretcher's tail has been drained already.
    pub fn step_stretched(&mut self, flushed: bool) -> (r: StretchStep)
        ensures
            final(self).valid(),
            final(self).len_spec() == old(self).len_spec(),
            final(self).rate_q_spec() == old(self).rate_q_spec(),
            final(self).scrub_spec() == old(self).scrub_spec(),
            final(self).done_spec() == old(self).done_spec(),
            final(self).gen_spec() == old(self).gen_spec(),
            ({
                let t = *old(self);
                let need = Self::block_need(t.rate_q_spec());
                if t.pos_spec() + need <= t.len_spec() {
                    r == StretchStep::Block {
                        from: t.pos_spec() as u64,
                        to: (t.pos_spec() + need) as u64,
                        out_len: OUT_BLOCK,
                    } && final(self).pos_spec() == t.pos_spec() + need
                } else if !t.done_spec() {
                    r == StretchStep::Hold && final(self).pos_spec() == t.pos_spec()
                } else if t.pos_spec() < t.len_spec() {
                    r == StretchStep::Block {
                        from: t.pos_spec() as u64,
                        to: t.len_spec() as u64,
                        out_len: Self::stretched_len(
                            (t.len_spec() - t.pos_spec()) as nat,
                            t.rate_q_spec(),
                        ) as u64,
                    } && final(self).pos_spec() == t.len_spec()
                } else if !flushed {
                    r == StretchStep::Flush && final(self).pos_spec() == t.pos_spec()
                } else {
                    r == StretchStep::End && final(self).pos_spec() == t.pos_spec()
                }
            }),
            r matches StretchStep::Block { from, to, out_len } ==> from < to
                <= final(self).len_spec() && out_len >= 1,
    {
        proof {
            use_type_invariant(&*self);
        }
        let need: u64 = 256 * self.rate_q as u64;
        let pos = self.pos;
        let len = self.len;
        if len - pos >= need {
            self.pos = pos + need;
            return StretchStep::Block { from: pos, to: pos + need, out_len: OUT_BLOCK };
        }
        if !self.synth_done {
            return StretchStep::Hold;
        }
        if pos < len {
            let n = len - pos;
            let q = self.rate_q as u64;
            assert(n < 256 * q);
            let r0 = (8 * n + q) / (2 * q);
            let out_len = if r0 == 0 {
                1
            } else {
                r0
            };
            self.pos = len;
            return StretchStep::Block { from: pos, to: len, out_len };
        }
        if !flushed {
            StretchStep::Flush
        } else {
            StretchStep::End
        }
    }
}

} // verus!

verus! {

/// A skip that stays inside `0..=max_pos`, from a position inside it, is
/// undone by the opposite skip.
pub proof fn lemma_skip_round_trip(t: Transport, u: Transport, secs: int)
    requires
        t.valid(),
        t.pos_spec() <= t.max_pos_spec(),
        u.pos_spec() == t.skip_target(secs),
        u.len_spec() == t.len_spec(),
        u.done_spec() == t.done_spec(),
        0 <= t.pos_spec() + secs * SAMPLE_RATE <= t.max_pos_spec(),
    ensures
        u.skip_target(-secs) == t.pos_spec(),
{
    assert(u.max_pos_spec() == t.max_pos_spec());
    assert(u.pos_spec() + (-secs) * SAMPLE_RATE == t.pos_spec());
}

/// While synthesis runs, no skip lands within half a second of the
/// frontier (once that much audio exists); once it is done, a long enough
/// forward skip lands exactly at the end.
pub proof fn lemma_skip_respects_frontier(t: Transport, secs: int)
    requires
        t.valid(),
    ensures
        !t.done_spec() && t.len_spec() >= FRONTIER_MARGIN ==> t.skip_target(secs) + FRONTIER_MARGIN
            <= t.len_spec(),
        t.done_spec() && t.pos_spec() + secs * SAMPLE_RATE >= t.len_spec() ==> t.skip_target(secs)
            == t.len_spec(),
{
}

/// One plain step moves the cursor by one sample at 1x, and by three
/// samples in the scrub's direction while scrubbing (3x), away from the
/// start and the frontier; the scrub then goes on.
pub proof fn lemma_plain_step_moves(t: Transport)
    requires
        t.valid(),
    ensures
        t.scrub_spec() == 0 ==> t.plain_target() == t.pos_spec() + 1,
        t.scrub_spec() == 1 && t.pos_spec() + 3 < t.max_pos_spec() ==> t.plain_target() == t.pos_spec()
            + 3 && t.plain_target() < t.len_spec() && t.plain_scrub_after() == 1,
        t.scrub_spec() == -1 && t.pos_spec() >= 3 ==> t.plain_target() == t.pos_spec() - 3
            && t.plain_target() < t.len_spec() && t.plain_scrub_after() == -1,
{
}

/// Plain playback without a scrub steps one sample ahead, so a step from
/// the last sample reaches the frontier: `step_plain` then ends finished
/// audio and holds unfinished audio in silence at the frontier.
pub proof fn lemma_plain_step_at_frontier(t: Transport)
    requires
        t.scrub_spec() == 0,
        t.pos_spec() + 1 >= t.len_spec(),
    ensures
        t.plain_target() == t.pos_spec() + 1,
        t.plain_target() >= t.len_spec(),
        t.plain_scrub_after() == 0,
{
}

} // verus!
