//! Reading text aloud sentence by sentence, with one fallback: when a cloud
//! provider fails, its failure is recorded and the same sentence is retried
//! on the local Kokoro voice; a failure on Kokoro ends the readout.

use vstd::prelude::*;

verus! {

/// Progress of one readout over `count` sentences.
pub struct Readout {
    count: usize,
    index: usize,
    on_kokoro: bool,
    fell_back: bool,
    failed: bool,
    cancelled: bool,
}

/// What to do after a sentence's synthesis returned.
#[derive(Debug, PartialEq, Eq, Clone, Copy)]
pub enum Reaction {
    /// It worked: go on with the next sentence.
    Next,
    /// A cloud provider failed: record why, switch to Kokoro (voice
    /// bm_george, model v1.0) and retry the same sentence.
    FallBackToKokoro,
    /// Stop and report the error.
    Fail,
}

impl Readout {
    pub closed spec fn count_spec(self) -> nat {
        self.count as nat
    }

    pub closed spec fn index_spec(self) -> nat {
        self.index as nat
    }

    pub closed spec fn on_kokoro_spec(self) -> bool {
        self.on_kokoro
    }

    pub closed spec fn fell_back_spec(self) -> bool {
        self.fell_back
    }

    pub closed spec fn failed_spec(self) -> bool {
        self.failed
    }

    pub closed spec fn cancelled_spec(self) -> bool {
        self.cancelled
    }

    /// Whether another sentence is to be synthesized.
    pub open spec fn active_spec(self) -> bool {
        !self.failed_spec() && !self.cancelled_spec() && self.index_spec() < self.count_spec()
    }

    /// Synthesis calls left at most: two per sentence left (one more for a
    /// fallback), while it is active.
    pub open spec fn budget(self) -> nat {
        if self.active_spec() {
            (2 * (self.count_spec() - self.index_spec()) + (if self.on_kokoro_spec() {
                0int
            } else {
                1int
            })) as nat
        } else {
            0
        }
    }

    pub open spec fn valid(self) -> bool {
        &&& self.index_spec() <= self.count_spec()
        &&& self.fell_back_spec() ==> self.on_kokoro_spec()
    }

    /// A readout of `count` sentences, starting on Kokoro or on a cloud
    /// provider.
    pub fn new(count: usize, on_kokoro: bool) -> (r: Readout)
        ensures
            r.count_spec() == count,
            r.index_spec() == 0,
            r.on_kokoro_spec() == on_kokoro,
            !r.fell_back_spec(),
            !r.failed_spec(),
            !r.cancelled_spec(),
            r.valid(),
    {
        Readout { count, index: 0, on_kokoro, fell_back: false, failed: false, cancelled: false }
    }

    /// The sentence to synthesize next, if the readout goes on.
    pub fn next(&self) -> (r: Option<usize>)
        ensures
            self.active_spec() ==> r == Some(self.index_spec() as usize),
            !self.active_spec() ==> r is None,
    {
        if !self.failed && !self.cancelled && self.index < self.count {
            Some(self.index)
        } else {
            None
        }
    }

    /// The user cancelled: no further sentence is synthesized.
    pub fn cancel(&mut self)
        ensures
            final(self).cancelled_spec(),
            final(self).index_spec() == old(self).index_spec(),
            final(self).count_spec() == old(self).count_spec(),
            final(self).on_kokoro_spec() == old(self).on_kokoro_spec(),
            final(self).fell_back_spec() == old(self).fell_back_spec(),
            final(self).failed_spec() == old(self).failed_spec(),
    {
        self.cancelled = true;
    }

    /// Record the outcome of synthesizing the current sentence. `ok`: it
    /// worked; `kokoro_available`: a local engine exists to fall back on.
    pub fn record(&mut self, ok: bool, kokoro_available: bool) -> (r: Reaction)
        requires
            old(self).valid(),
            old(self).active_spec(),
        ensures
            final(self).valid(),
            final(self).count_spec() == old(self).count_spec(),
            final(self).cancelled_spec() == old(self).cancelled_spec(),
            ok ==> r == Reaction::Next && final(self).index_spec() == old(self).index_spec() + 1
                && final(self).on_kokoro_spec() == old(self).on_kokoro_spec()
                && final(self).fell_back_spec() == old(self).fell_back_spec()
                && !final(self).failed_spec(),
            !ok && !old(self).on_kokoro_spec() && !old(self).fell_back_spec() && kokoro_available
                ==> r == Reaction::FallBackToKokoro && final(self).index_spec() == old(
                self,
            ).index_spec() && final(self).on_kokoro_spec() && final(self).fell_back_spec()
                && !final(self).failed_spec(),
            !ok && (old(self).on_kokoro_spec() || old(self).fell_back_spec() || !kokoro_available)
                ==> r == Reaction::Fail && final(self).failed_spec() && final(self).index_spec()
                == old(self).index_spec() && final(self).on_kokoro_spec() == old(
                self,
            ).on_kokoro_spec() && final(self).fell_back_spec() == old(self).fell_back_spec(),
            final(self).budget() < old(self).budget(),
    {
        if ok {
            self.index = self.index + 1;
            Reaction::Next
        } else if !self.on_kokoro && !self.fell_back && kokoro_available {
            self.on_kokoro = true;
            self.fell_back = true;
            Reaction::FallBackToKokoro
        } else {
            self.failed = true;
            Reaction::Fail
        }
    }

    pub fn fell_back(&self) -> (r: bool)
        ensures
            r == self.fell_back_spec(),
    {
        self.fell_back
    }

    pub fn failed(&self) -> (r: bool)
        ensures
            r == self.failed_spec(),
    {
        self.failed
    }

    pub fn on_kokoro(&self) -> (r: bool)
        ensures
            r == self.on_kokoro_spec(),
    {
        self.on_kokoro
    }

    /// A readout that ran on its cloud provider throughout, without
    /// failing, over at least one sentence: that provider's recorded error
    /// is cleared (one-shot mode, where a cancelled run counts too).
    pub fn clears_provider_error(&self) -> (r: bool)
        ensures
            r == (!self.fell_back_spec() && !self.failed_spec() && !self.on_kokoro_spec()
                && self.count_spec() > 0),
    {
        !self.fell_back && !self.failed && !self.on_kokoro && self.count > 0
    }

    /// The reader UI clears a provider's recorded error only after a
    /// complete, uncancelled run on it.
    pub fn clears_provider_error_uncancelled(&self) -> (r: bool)
        ensures
            r == (!self.fell_back_spec() && !self.failed_spec() && !self.on_kokoro_spec()
                && self.count_spec() > 0 && !self.cancelled_spec()),
    {
        self.clears_provider_error() && !self.cancelled
    }
}

} // verus!
