use vstd::prelude::*;

use crate::error::ErrorKind;

verus! {

/// One snapshot of the peripheral's three live status flags.
#[derive(Clone, Copy, Debug, PartialEq, Eq, Structural)]
pub struct Status {
    /// The sticky clock-error latch: the generator clock is out of the
    /// required frequency relationship with the system clock.
    pub clock_error: bool,
    /// The sticky seed-error latch: the hardware entropy self-check failed.
    pub seed_error: bool,
    /// A fresh random word is available in the data register.
    pub data_ready: bool,
}

/// What one status poll observes: the flags, and the word a data-register
/// read following this poll would return.  The word is meaningful only when
/// `data_ready` is set.
#[derive(Clone, Copy, Debug, PartialEq, Eq, Structural)]
pub struct Sample {
    pub status: Status,
    pub word: u32,
}

/// The mathematical state of a register handle: the scripted snapshots that
/// successive polls observe, how many polls have happened, and whether the
/// generator-enable control bit is set.
pub ghost struct TrngModel {
    pub samples: Seq<Sample>,
    pub cursor: int,
    pub enabled: bool,
}

/// The exclusively owned register handle of the peripheral.  Polling it
/// advances through a script of status snapshots; once the script runs out,
/// every further poll observes an idle device (all flags clear).
pub struct Trng {
    script: Vec<Sample>,
    cursor: usize,
    enabled: bool,
}

impl View for Trng {
    type V = TrngModel;

    closed spec fn view(&self) -> TrngModel {
        TrngModel { samples: self.script@, cursor: self.cursor as int, enabled: self.enabled }
    }
}

/// What an exhausted script serves forever: all flags clear, no data.
pub open spec fn idle_sample() -> Sample {
    Sample { status: Status { clock_error: false, seed_error: false, data_ready: false }, word: 0 }
}

/// A sample on which the word reader stops polling: some fault is latched or
/// a word is ready.
pub open spec fn resolves(s: Sample) -> bool {
    s.status.clock_error || s.status.seed_error || s.status.data_ready
}

/// The word reader's fault-priority policy applied to one snapshot: a latched
/// clock error supersedes everything, then a seed error, then the data word.
pub open spec fn read_outcome(s: Sample) -> Result<u32, ErrorKind> {
    if s.status.clock_error {
        Err(ErrorKind::ClockError)
    } else if s.status.seed_error {
        Err(ErrorKind::SeedError)
    } else {
        Ok(s.word)
    }
}

/// The position of the first sample at or after `pos` on which a word read
/// resolves; `samples.len()` if there is none.
pub open spec fn first_resolving_at(samples: Seq<Sample>, pos: int) -> int
    decreases samples.len() - pos
        when 0 <= pos <= samples.len()
{
    if pos >= samples.len() {
        samples.len() as int
    } else if resolves(samples[pos]) {
        pos
    } else {
        first_resolving_at(samples, pos + 1)
    }
}

/// The position of the first sample at or after `pos` with `data_ready` set;
/// `samples.len()` if there is none.
pub open spec fn first_ready_at(samples: Seq<Sample>, pos: int) -> int
    decreases samples.len() - pos
        when 0 <= pos <= samples.len()
{
    if pos >= samples.len() {
        samples.len() as int
    } else if samples[pos].status.data_ready {
        pos
    } else {
        first_ready_at(samples, pos + 1)
    }
}

/// The outcomes of successive word reads started at `pos`: one entry per
/// resolving sample, in script order.
pub open spec fn outcomes(samples: Seq<Sample>, pos: int) -> Seq<Result<u32, ErrorKind>>
    decreases samples.len() - pos
        when 0 <= pos <= samples.len()
{
    if pos >= samples.len() {
        Seq::empty()
    } else if resolves(samples[pos]) {
        seq![read_outcome(samples[pos])] + outcomes(samples, pos + 1)
    } else {
        outcomes(samples, pos + 1)
    }
}

/// The position of the first faulted outcome; `outs.len()` if every outcome
/// is a word.
pub open spec fn first_err_at(outs: Seq<Result<u32, ErrorKind>>) -> int
    decreases outs.len(),
{
    if outs.len() == 0 {
        0
    } else if outs[0] is Err {
        0
    } else {
        1 + first_err_at(outs.skip(1))
    }
}

/// Enough outcomes lie ahead for a fill of `need` words to run to completion or to a fault:
/// either `need` outcomes, or a fault that cuts the fill short.
pub open spec fn fill_reads_available(outs: Seq<Result<u32, ErrorKind>>, need: int) -> bool {
    need <= outs.len() || first_err_at(outs) < outs.len()
}

pub proof fn lemma_first_err_bounds(outs: Seq<Result<u32, ErrorKind>>)
    ensures
        0 <= first_err_at(outs) <= outs.len(),
        first_err_at(outs) < outs.len() ==> outs[first_err_at(outs)] is Err,
        forall|j: int| 0 <= j < first_err_at(outs) ==> (#[trigger] outs[j]) is Ok,
    decreases outs.len(),
{
    if outs.len() > 0 && !(outs[0] is Err) {
        lemma_first_err_bounds(outs.skip(1));
        assert forall|j: int| 0 <= j < first_err_at(outs) implies (#[trigger] outs[j]) is Ok by {
            if j > 0 {
                assert(outs.skip(1)[j - 1] == outs[j]);
            }
        }
    }
}

/// The cursor position after `k` word reads started at `pos`: each read
/// consumes the samples up to and including its resolving one.
pub open spec fn pos_after_reads(samples: Seq<Sample>, pos: int, k: int) -> int
    decreases k,
{
    if k <= 0 {
        pos
    } else {
        pos_after_reads(samples, first_resolving_at(samples, pos) + 1, k - 1)
    }
}

/// Peeling the last read: after `k + 1` reads the cursor stands one past
/// the sample that resolved the read following the first `k`.
pub proof fn lemma_pos_after_reads_snoc(samples: Seq<Sample>, pos: int, k: int)
    requires
        0 <= k,
    ensures
        pos_after_reads(samples, pos, k + 1) == first_resolving_at(
            samples,
            pos_after_reads(samples, pos, k),
        ) + 1,
    decreases k,
{
    if k == 0 {
        assert(pos_after_reads(samples, first_resolving_at(samples, pos) + 1, 0)
            == first_resolving_at(samples, pos) + 1);
    } else {
        lemma_pos_after_reads_snoc(samples, first_resolving_at(samples, pos) + 1, k - 1);
    }
}

/// A word read started now will resolve within the script: some sample
/// ahead carries a fault or a ready word.
pub open spec fn pending(m: TrngModel) -> bool {
    first_resolving_at(m.samples, m.cursor) < m.samples.len()
}

/// The initializer's warm-up loop reaches a ready sample without first
/// observing a latched clock error.
pub open spec fn warmup_safe(samples: Seq<Sample>, pos: int) -> bool {
    forall|j: int|
        pos <= j < first_ready_at(samples, pos) ==> !(#[trigger] samples[j]).status.clock_error
}

/// The full precondition of initialization: the script ahead reaches a ready
/// sample, and no clock error is latched before it.
pub open spec fn init_pre(m: TrngModel) -> bool {
    &&& first_ready_at(m.samples, m.cursor) < m.samples.len()
    &&& warmup_safe(m.samples, m.cursor)
}

pub proof fn lemma_first_resolving_bounds(samples: Seq<Sample>, pos: int)
    requires
        0 <= pos <= samples.len(),
    ensures
        pos <= first_resolving_at(samples, pos) <= samples.len(),
        first_resolving_at(samples, pos) < samples.len() ==> resolves(
            samples[first_resolving_at(samples, pos)],
        ),
        forall|j: int|
            pos <= j < first_resolving_at(samples, pos) ==> !resolves(#[trigger] samples[j]),
    decreases samples.len() - pos,
{
    if pos < samples.len() && !resolves(samples[pos]) {
        lemma_first_resolving_bounds(samples, pos + 1);
    }
}

pub proof fn lemma_first_ready_bounds(samples: Seq<Sample>, pos: int)
    requires
        0 <= pos <= samples.len(),
    ensures
        pos <= first_ready_at(samples, pos) <= samples.len(),
        first_ready_at(samples, pos) < samples.len() ==> samples[first_ready_at(
            samples,
            pos,
        )].status.data_ready,
        forall|j: int|
            pos <= j < first_ready_at(samples, pos) ==> !(#[trigger] samples[j]).status.data_ready,
    decreases samples.len() - pos,
{
    if pos < samples.len() && !samples[pos].status.data_ready {
        lemma_first_ready_bounds(samples, pos + 1);
    }
}

/// The first word read started at `pos` consumes exactly the first resolving
/// sample: it yields that sample's outcome, and the reads that follow it see
/// the remaining outcomes.
pub proof fn lemma_outcomes_head(samples: Seq<Sample>, pos: int)
    requires
        0 <= pos <= samples.len(),
    ensures
        first_resolving_at(samples, pos) < samples.len() <==> outcomes(samples, pos).len() > 0,
        first_resolving_at(samples, pos) < samples.len() ==> {
            let i = first_resolving_at(samples, pos);
            &&& outcomes(samples, pos)[0] == read_outcome(samples[i])
            &&& outcomes(samples, pos).skip(1) == outcomes(samples, i + 1)
        },
    decreases samples.len() - pos,
{
    if pos < samples.len() {
        if resolves(samples[pos]) {
            assert(outcomes(samples, pos).skip(1) =~= outcomes(samples, pos + 1));
        } else {
            lemma_outcomes_head(samples, pos + 1);
        }
    }
}

impl Trng {
    /// The handle's polls stay within its script.
    pub open spec fn wf(&self) -> bool {
        0 <= self@.cursor <= self@.samples.len()
    }

    /// A fresh handle over the given script: nothing polled yet, generator
    /// disabled.
    pub fn new(script: Vec<Sample>) -> (r: Trng)
        ensures
            r.wf(),
            r@.samples == script@,
            r@.cursor == 0,
            !r@.enabled,
    {
        Trng { script, cursor: 0, enabled: false }
    }

    /// Read the status register once, together with the word a data-register
    /// read would now return.  Each poll observes the next scripted snapshot;
    /// an exhausted script observes an idle device.
    pub fn poll(&mut self) -> (s: Sample)
        requires
            old(self).wf(),
        ensures
            final(self).wf(),
            final(self)@.samples == old(self)@.samples,
            final(self)@.enabled == old(self)@.enabled,
            old(self)@.cursor < old(self)@.samples.len() ==> {
                &&& s == old(self)@.samples[old(self)@.cursor]
                &&& final(self)@.cursor == old(self)@.cursor + 1
            },
            old(self)@.cursor >= old(self)@.samples.len() ==> {
                &&& s == idle_sample()
                &&& final(self)@ == old(self)@
            },
    {
        if self.cursor < self.script.len() {
            let s = self.script[self.cursor];
            self.cursor = self.cursor + 1;
            s
        } else {
            Sample {
                status: Status { clock_error: false, seed_error: false, data_ready: false },
                word: 0,
            }
        }
    }

    /// Set the generator-enable control bit.
    pub fn enable(&mut self)
        requires
            old(self).wf(),
        ensures
            final(self).wf(),
            final(self)@.samples == old(self)@.samples,
            final(self)@.cursor == old(self)@.cursor,
            final(self)@.enabled,
    {
        self.enabled = true;
    }

    /// How many polls this handle has served.
    pub fn position(&self) -> (r: usize)
        ensures
            r == self@.cursor,
    {
        self.cursor
    }

    /// Whether the generator-enable control bit is set.
    pub fn is_enabled(&self) -> (r: bool)
        ensures
            r == self@.enabled,
    {
        self.enabled
    }

    /// Whether a word read started now resolves within the script: scanning
    /// ahead, some sample carries a latched fault or a ready word.
    pub fn pending_resolution(&self) -> (r: bool)
        requires
            self.wf(),
        ensures
            r == pending(self@),
    {
        let ghost samples = self@.samples;
        let ghost pos0: int = self@.cursor;
        let mut i: usize = self.cursor;
        loop
            invariant
                self.wf(),
                samples == self@.samples,
                pos0 == self@.cursor,
                pos0 <= i <= samples.len(),
                first_resolving_at(samples, pos0) == first_resolving_at(samples, i as int),
            decreases samples.len() - i,
        {
            if i >= self.script.len() {
                proof {
                    assert(first_resolving_at(samples, i as int) == samples.len());
                }
                return false;
            }
            let s = self.script[i];
            if s.status.clock_error || s.status.seed_error || s.status.data_ready {
                proof {
                    assert(resolves(samples[i as int]));
                    assert(first_resolving_at(samples, i as int) == i);
                }
                return true;
            }
            proof {
                assert(!resolves(samples[i as int]));
            }
            i = i + 1;
        }
    }

    /// Whether `need` word reads started now reach a verdict within the
    /// script: either `need` resolving samples lie ahead, or a faulted one
    /// cuts the sequence short.
    pub fn outcomes_available(&self, need: usize) -> (r: bool)
        requires
            self.wf(),
        ensures
            r == fill_reads_available(outcomes(self@.samples, self@.cursor), need as int),
    {
        let ghost samples = self@.samples;
        let ghost pos0: int = self@.cursor;
        let ghost outs = outcomes(samples, pos0);
        proof {
            lemma_first_err_bounds(outs);
            assert(outs.skip(0) =~= outs);
        }
        let mut count: usize = 0;
        let mut i: usize = self.cursor;
        #[verifier::loop_isolation(false)]
        loop
            invariant
                pos0 <= i <= samples.len(),
                0 <= count <= outs.len(),
                count <= first_err_at(outs),
                outs.skip(count as int) == outcomes(samples, i as int),
                count <= need,
            decreases samples.len() - i,
        {
            if count >= need {
                return true;
            }
            if i >= self.script.len() {
                proof {
                    assert(outcomes(samples, i as int) =~= Seq::<Result<u32, ErrorKind>>::empty());
                    assert(outs.len() == count < need);
                    assert(first_err_at(outs) == outs.len());
                }
                return false;
            }
            let s = self.script[i];
            let ghost o = read_outcome(samples[i as int]);
            if s.status.clock_error || s.status.seed_error {
                proof {
                    assert(resolves(samples[i as int]));
                    assert(o is Err);
                    assert(outcomes(samples, i as int) == seq![o] + outcomes(samples, i + 1));
                    assert(outcomes(samples, i as int)[0] == o);
                    assert(outs.skip(count as int)[0] == outs[count as int]);
                    assert(outs[count as int] == o);
                    assert(first_err_at(outs) < outs.len());
                }
                return true;
            }
            if s.status.data_ready {
                proof {
                    assert(resolves(samples[i as int]));
                    assert(o is Ok);
                    assert(outcomes(samples, i as int) == seq![o] + outcomes(samples, i + 1));
                    assert(outcomes(samples, i as int)[0] == o);
                    assert(outs.skip(count as int)[0] == outs[count as int]);
                    assert(outs[count as int] == o);
                    assert(first_err_at(outs) != count);
                    assert(outs.skip(count + 1) =~= outs.skip(count as int).skip(1));
                    assert(outs.skip(count as int).skip(1) =~= outcomes(samples, i + 1));
                }
                count = count + 1;
            } else {
                proof {
                    assert(!resolves(samples[i as int]));
                }
            }
            i = i + 1;
        }
    }

    /// Whether initialization can safely warm this handle up: scanning the
    /// script ahead, a ready sample is found before any latched clock error.
    pub fn init_ready(&self) -> (r: bool)
        requires
            self.wf(),
        ensures
            r == init_pre(self@),
    {
        let ghost samples = self@.samples;
        let ghost pos0: int = self@.cursor;
        let mut i: usize = self.cursor;
        loop
            invariant
                self.wf(),
                samples == self@.samples,
                pos0 == self@.cursor,
                pos0 <= i <= samples.len(),
                first_ready_at(samples, pos0) == first_ready_at(samples, i as int),
                forall|j: int|
                    pos0 <= j < i ==> !(#[trigger] samples[j]).status.clock_error,
            decreases samples.len() - i,
        {
            if i >= self.script.len() {
                proof {
                    assert(first_ready_at(samples, i as int) == samples.len());
                }
                return false;
            }
            let s = self.script[i];
            if s.status.data_ready {
                proof {
                    assert(first_ready_at(samples, i as int) == i);
                }
                return true;
            }
            if s.status.clock_error {
                proof {
                    assert(first_ready_at(samples, i as int) == first_ready_at(
                        samples,
                        i + 1,
                    ));
                    lemma_first_ready_bounds(samples, i + 1);
                }
                return false;
            }
            i = i + 1;
        }
    }
}

} // verus!
