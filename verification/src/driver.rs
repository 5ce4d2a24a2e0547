use vstd::pervasive::unreached;
use vstd::pervasive::VecAdditionalExecFns;
use vstd::prelude::*;

use crate::bytes::chunk_matches;
use crate::bytes::word_native_bytes;
use crate::clock::ClockControl;
use crate::device::fill_reads_available;
use crate::device::first_err_at;
use crate::device::first_ready_at;
use crate::device::first_resolving_at;
use crate::device::init_pre;
use crate::device::lemma_first_err_bounds;
use crate::device::lemma_first_ready_bounds;
use crate::device::lemma_first_resolving_bounds;
use crate::device::lemma_outcomes_head;
use crate::device::outcomes;
use crate::device::lemma_pos_after_reads_snoc;
use crate::device::pending;
use crate::device::pos_after_reads;
use crate::device::read_outcome;
use crate::device::resolves;
use crate::device::Sample;
use crate::device::Trng;
use crate::device::TrngModel;
use crate::error::error_code_of;
use crate::error::generic_code_of;
use crate::error::ErrorKind;

verus! {

/// How many word reads a fill of `n` bytes takes when no fault interrupts
/// it: four bytes per word, rounded up.
pub open spec fn words_needed(n: int) -> int {
    (n + 3) / 4
}

/// Where the `k`-th chunk of an `n`-byte fill ends: four bytes past its
/// start, or the end of the buffer for a final partial chunk.
pub open spec fn chunk_end(k: int, n: int) -> int {
    if 4 * k + 4 <= n {
        4 * k + 4
    } else {
        n
    }
}

/// The first `upto` chunks of `buf` each hold a prefix of the corresponding
/// word's native byte representation.
pub open spec fn buffer_filled(buf: Seq<u8>, outs: Seq<Result<u32, ErrorKind>>, upto: int) -> bool {
    forall|k: int|
        0 <= k < upto ==> chunk_matches(
            (#[trigger] outs[k])->Ok_0,
            buf.subrange(4 * k, chunk_end(k, buf.len() as int)),
        )
}

/// The driver instance: it owns the register handle of a peripheral that
/// initialization has enabled and warmed up.
pub struct Rng {
    rb: Trng,
}

impl View for Rng {
    type V = TrngModel;

    closed spec fn view(&self) -> TrngModel {
        self.rb@
    }
}

/// Extension that turns a raw register handle into an initialized driver.
pub trait RngExt: Sized {
    /// The device model behind the handle.
    spec fn device(&self) -> TrngModel;

    /// The handle can be initialized: its warm-up reaches a ready sample
    /// without first observing a latched clock error.
    spec fn init_ok(&self) -> bool;

    /// Enable the peripheral's clock source and the peripheral itself, then
    /// busy-wait until data-ready is observed.  The PLL is started if it is
    /// not already running, the peripheral's clock gate is opened and its
    /// reset line pulsed, and the warm-up loop polls until the first ready
    /// sample; a clock error during warm-up would be a board defect, and is
    /// ruled out by `init_ok`.  The driver handed back holds the device just
    /// past that first ready sample.
    fn init(self, clocks: &mut ClockControl) -> (r: Rng)
        requires
            self.init_ok(),
            old(clocks).wf(),
        ensures
            r.wf(),
            r@.samples == self.device().samples,
            first_ready_at(self.device().samples, self.device().cursor)
                < self.device().samples.len(),
            r@.cursor == first_ready_at(self.device().samples, self.device().cursor) + 1,
            final(clocks).wf(),
            final(clocks)@.pll_on,
            final(clocks)@.pll_locked,
            final(clocks)@.rng_clock_on,
            final(clocks)@.rng_reset_done,
    ;
}

impl RngExt for Trng {
    open spec fn device(&self) -> TrngModel {
        self@
    }

    open spec fn init_ok(&self) -> bool {
        self.wf() && init_pre(self@)
    }

    fn init(self, clocks: &mut ClockControl) -> (r: Rng) {
        let mut regs = self;
        let ghost samples = regs@.samples;
        let ghost p0: int = regs@.cursor;
        let ghost ready: int = first_ready_at(samples, p0);
        proof {
            lemma_first_ready_bounds(samples, p0);
        }
        // The peripheral's clock source depends on the PLL: start it if
        // necessary and busy-wait until it reports ready.
        if !clocks.poll_pll_ready() {
            clocks.set_pll_on();
            let ghost gate0: bool = clocks@.rng_clock_on;
            let ghost reset0: bool = clocks@.rng_reset_done;
            loop
                invariant
                    clocks.wf(),
                    clocks@.pll_on,
                    clocks@.rng_clock_on == gate0,
                    clocks@.rng_reset_done == reset0,
                ensures
                    clocks.wf(),
                    clocks@.pll_on,
                    clocks@.pll_locked,
                    clocks@.rng_clock_on == gate0,
                    clocks@.rng_reset_done == reset0,
                decreases clocks@.lock_delay,
            {
                if clocks.poll_pll_ready() {
                    break;
                }
            }
        }
        // Open the peripheral's clock gate and pulse its reset line.
        clocks.enable_rng_clock();
        clocks.pulse_rng_reset();
        // Set the generator-enable control bit.
        regs.enable();
        // Warm up: the hardware clock check is used instead of a software
        // calculation; until data is ready, a latched clock error would be
        // fatal, and `init_ok` rules it out.
        let mut done = false;
        #[verifier::loop_isolation(false)]
        while !done
            invariant
                regs.wf(),
                regs@.samples == samples,
                regs@.enabled,
                !done ==> p0 <= regs@.cursor <= ready && first_ready_at(samples, regs@.cursor)
                    == ready,
                done ==> regs@.cursor == ready + 1,
            decreases ready + 1 - regs@.cursor,
        {
            let ghost c: int = regs@.cursor;
            let s = regs.poll();
            proof {
                assert(s == samples[c]);
            }
            if s.status.data_ready {
                proof {
                    assert(first_ready_at(samples, c) == c);
                }
                done = true;
            } else {
                proof {
                    assert(samples[ready].status.data_ready);
                    assert(c < ready);
                    assert(first_ready_at(samples, c + 1) == ready);
                }
                assert(!s.status.clock_error);
            }
        }
        Rng { rb: regs }
    }
}

impl Rng {
    /// The driver's polls stay within the script, and the generator is
    /// enabled.
    pub open spec fn wf(&self) -> bool {
        0 <= self@.cursor <= self@.samples.len() && self@.enabled
    }

    /// Poll the status flags until the read resolves, and return one
    /// complete 32-bit random word or the classified fault.  Per iteration a
    /// latched clock error is reported first, then a latched seed error,
    /// then a ready data word; an idle snapshot is polled past.
    pub fn get_rand(&mut self) -> (r: Result<u32, ErrorKind>)
        requires
            old(self).wf(),
            pending(old(self)@),
        ensures
            final(self).wf(),
            final(self)@.samples == old(self)@.samples,
            final(self)@.enabled == old(self)@.enabled,
            r == read_outcome(
                old(self)@.samples[first_resolving_at(old(self)@.samples, old(self)@.cursor)],
            ),
            final(self)@.cursor == first_resolving_at(old(self)@.samples, old(self)@.cursor) + 1,
            outcomes(old(self)@.samples, old(self)@.cursor).len() > 0,
            r == outcomes(old(self)@.samples, old(self)@.cursor)[0],
            outcomes(final(self)@.samples, final(self)@.cursor) == outcomes(
                old(self)@.samples,
                old(self)@.cursor,
            ).skip(1),
    {
        let ghost samples = self@.samples;
        let ghost p0: int = self@.cursor;
        let ghost stop: int = first_resolving_at(samples, p0);
        proof {
            lemma_first_resolving_bounds(samples, p0);
            lemma_outcomes_head(samples, p0);
        }
        #[verifier::loop_isolation(false)]
        loop
            invariant
                self.wf(),
                self@.samples == samples,
                self@.enabled == old(self)@.enabled,
                p0 <= self@.cursor <= stop,
                first_resolving_at(samples, self@.cursor) == stop,
            decreases stop - self@.cursor,
        {
            let ghost c: int = self@.cursor;
            let s = self.rb.poll();
            proof {
                assert(s == samples[c]);
            }
            if s.status.clock_error {
                proof {
                    assert(first_resolving_at(samples, c) == c);
                }
                return Err(ErrorKind::ClockError);
            }
            if s.status.seed_error {
                proof {
                    assert(first_resolving_at(samples, c) == c);
                }
                return Err(ErrorKind::SeedError);
            }
            if s.status.data_ready {
                proof {
                    assert(first_resolving_at(samples, c) == c);
                }
                return Ok(s.word);
            }
            proof {
                assert(!resolves(samples[c]));
                assert(resolves(samples[stop]));
                assert(c < stop);
                assert(first_resolving_at(samples, c + 1) == stop);
            }
        }
    }

    /// Whether a word read started now would resolve within the script; the
    /// runtime counterpart of `get_rand`'s precondition.
    pub fn can_read(&self) -> (r: bool)
        requires
            self.wf(),
        ensures
            r == pending(self@),
    {
        self.rb.pending_resolution()
    }

    /// Whether a fill of `n` bytes started now would run to completion or to a fault; the
    /// runtime counterpart of `try_fill_bytes`'s precondition.
    pub fn fill_supported(&self, n: usize) -> (r: bool)
        requires
            self.wf(),
        ensures
            r == fill_reads_available(
                outcomes(self@.samples, self@.cursor),
                words_needed(n as int),
            ),
    {
        let need = n / 4 + if n % 4 == 0 {
            0
        } else {
            1
        };
        proof {
            assert(need == words_needed(n as int));
        }
        self.rb.outcomes_available(need)
    }

    /// How many polls the device behind this driver has served.
    pub fn position(&self) -> (r: usize)
        ensures
            r == self@.cursor,
    {
        self.rb.position()
    }

    /// Give the register handle back to the caller.  No teardown runs: the
    /// peripheral stays electrically enabled, and the handle presents the
    /// very device state the driver held.  Together with `RngExt::init`,
    /// this is the round trip: a released handle whose remaining script is
    /// warm-up safe initializes again into a well-formed driver.
    pub fn release(self) -> (r: Trng)
        ensures
            r@ == self@,
    {
        self.rb
    }

    /// Fill the buffer with random bytes, each successful word contributing
    /// up to four bytes in the word's native in-memory byte order.  The fill
    /// stops on the first failed read and propagates that fault, leaving the
    /// rest of the buffer untouched; a zero-length buffer succeeds without
    /// touching the peripheral.
    pub fn try_fill_bytes(&mut self, buffer: &mut Vec<u8>) -> (r: Result<(), ErrorKind>)
        requires
            old(self).wf(),
            fill_reads_available(
                outcomes(old(self)@.samples, old(self)@.cursor),
                words_needed(old(buffer)@.len() as int),
            ),
        ensures
            final(self).wf(),
            final(self)@.samples == old(self)@.samples,
            final(self)@.enabled == old(self)@.enabled,
            final(buffer)@.len() == old(buffer)@.len(),
            ({
                let outs = outcomes(old(self)@.samples, old(self)@.cursor);
                let n = old(buffer)@.len() as int;
                let need = words_needed(n);
                &&& (r is Ok <==> need <= outs.len() && (forall|k: int|
                    0 <= k < need ==> (#[trigger] outs[k]) is Ok))
                &&& (r is Ok ==> {
                    &&& buffer_filled(final(buffer)@, outs, need)
                    &&& outcomes(final(self)@.samples, final(self)@.cursor) == outs.skip(need)
                    &&& final(self)@.cursor == pos_after_reads(
                        old(self)@.samples,
                        old(self)@.cursor,
                        need,
                    )
                })
                &&& (r matches Err(e) ==> {
                    let f = first_err_at(outs);
                    &&& 0 <= f < need
                    &&& f < outs.len()
                    &&& outs[f] == Err::<u32, ErrorKind>(e)
                    &&& buffer_filled(final(buffer)@, outs, f)
                    &&& (forall|m: int| 4 * f <= m < n ==> final(buffer)@[m] == old(buffer)@[m])
                    &&& outcomes(final(self)@.samples, final(self)@.cursor) == outs.skip(f + 1)
                    &&& final(self)@.cursor == pos_after_reads(
                        old(self)@.samples,
                        old(self)@.cursor,
                        f + 1,
                    )
                })
                &&& (n == 0 ==> final(self)@ == old(self)@ && final(buffer)@ == old(buffer)@)
            }),
    {
        let ghost samples = self@.samples;
        let ghost p0: int = self@.cursor;
        let ghost outs = outcomes(samples, p0);
        let ghost n: int = buffer@.len() as int;
        let ghost need: int = words_needed(n);
        proof {
            lemma_first_err_bounds(outs);
            assert(outs.skip(0) =~= outs);
        }
        // A zero-length buffer succeeds without touching the peripheral.
        if buffer.len() == 0 {
            return Ok(());
        }
        let ghost mut k: int = 0;
        let mut i: usize = 0;
        #[verifier::loop_isolation(false)]
        while i < buffer.len()
            invariant
                self.wf(),
                self@.samples == samples,
                self@.enabled == old(self)@.enabled,
                buffer@.len() == n,
                0 <= i <= n,
                0 <= k,
                i == 4 * k || (i == n && k == need),
                k <= need,
                k <= first_err_at(outs),
                k <= outs.len(),
                self@.cursor == pos_after_reads(samples, p0, k),
                outcomes(samples, self@.cursor) == outs.skip(k),
                buffer_filled(buffer@, outs, k),
                forall|m: int| i <= m < n ==> buffer@[m] == old(buffer)@[m],
            decreases n - i,
        {
            proof {
                assert(4 * k < n);
                assert(k < need);
                assert(k < outs.len());
                lemma_outcomes_head(samples, self@.cursor);
                lemma_pos_after_reads_snoc(samples, p0, k);
            }
            let w = match self.get_rand() {
                Ok(w) => w,
                Err(e) => {
                    proof {
                        assert(outs[k] == Err::<u32, ErrorKind>(e));
                        assert(first_err_at(outs) == k);
                        assert(outs.skip(k).skip(1) =~= outs.skip(k + 1));
                    }
                    return Err(e);
                },
            };
            proof {
                assert(outs[k] == Ok::<u32, ErrorKind>(w));
                assert(outs.skip(k).skip(1) =~= outs.skip(k + 1));
            }
            let bytes = word_native_bytes(w);
            let remaining = buffer.len() - i;
            let take = if remaining < 4 {
                remaining
            } else {
                4
            };
            let ghost buf_mid = buffer@;
            let mut j: usize = 0;
            #[verifier::loop_isolation(false)]
            while j < take
                invariant
                    buffer@.len() == n,
                    0 <= j <= take,
                    forall|m: int|
                        0 <= m < n && !(i <= m < i + j) ==> buffer@[m] == buf_mid[m],
                    forall|m: int| 0 <= m < j ==> buffer@[i + m] == bytes@[m],
                decreases take - j,
            {
                let b = bytes[j];
                buffer.set(i + j, b);
                j = j + 1;
            }
            proof {
                assert(buffer@.subrange(i as int, i + take) =~= bytes@.take(take as int));
                assert(chunk_end(k, n) == i + take);
                assert(chunk_matches(w, buffer@.subrange(4 * k, chunk_end(k, n))));
                assert forall|kk: int| 0 <= kk < k implies chunk_matches(
                    (#[trigger] outs[kk])->Ok_0,
                    buffer@.subrange(4 * kk, chunk_end(kk, n)),
                ) by {
                    assert(buffer@.subrange(4 * kk, chunk_end(kk, n)) =~= buf_mid.subrange(
                        4 * kk,
                        chunk_end(kk, n),
                    ));
                }
                assert(first_err_at(outs) != k);
                if i + take < n {
                    assert(i + take == 4 * (k + 1));
                } else {
                    assert(n == i + take);
                    assert(words_needed(n) == k + 1);
                }
                k = k + 1;
            }
            i = i + take;
        }
        proof {
            assert(k == need);
            assert forall|kk: int| 0 <= kk < need implies (#[trigger] outs[kk]) is Ok by {}
        }
        Ok(())
    }

    /// One word for the generic entropy-source surface, whose contract
    /// cannot report a fault: this verified form demands a fault-free read
    /// ahead, and the unverified surface wrapping it aborts where the
    /// peripheral faults instead.
    pub fn next_u32(&mut self) -> (r: u32)
        requires
            old(self).wf(),
            outcomes(old(self)@.samples, old(self)@.cursor).len() > 0,
            outcomes(old(self)@.samples, old(self)@.cursor)[0] is Ok,
        ensures
            final(self).wf(),
            final(self)@.samples == old(self)@.samples,
            final(self)@.enabled == old(self)@.enabled,
            Ok::<u32, ErrorKind>(r) == outcomes(old(self)@.samples, old(self)@.cursor)[0],
            final(self)@.cursor == first_resolving_at(old(self)@.samples, old(self)@.cursor) + 1,
            outcomes(final(self)@.samples, final(self)@.cursor) == outcomes(
                old(self)@.samples,
                old(self)@.cursor,
            ).skip(1),
    {
        proof {
            lemma_outcomes_head(self@.samples, self@.cursor);
        }
        match self.get_rand() {
            Ok(w) => w,
            Err(_) => unreached(),
        }
    }

    /// Two consecutive word reads combined into one double word: the first
    /// word forms the high 32 bits, the second the low 32 bits.  No
    /// atomicity holds between the two reads.
    pub fn next_u64(&mut self) -> (r: u64)
        requires
            old(self).wf(),
            outcomes(old(self)@.samples, old(self)@.cursor).len() >= 2,
            outcomes(old(self)@.samples, old(self)@.cursor)[0] is Ok,
            outcomes(old(self)@.samples, old(self)@.cursor)[1] is Ok,
        ensures
            final(self).wf(),
            final(self)@.samples == old(self)@.samples,
            final(self)@.enabled == old(self)@.enabled,
            ({
                let outs = outcomes(old(self)@.samples, old(self)@.cursor);
                &&& r == (outs[0]->Ok_0 as u64) << 32 | (outs[1]->Ok_0 as u64)
                &&& r == outs[0]->Ok_0 as u64 * 0x1_0000_0000 + outs[1]->Ok_0 as u64
            }),
            final(self)@.cursor == pos_after_reads(old(self)@.samples, old(self)@.cursor, 2),
            outcomes(final(self)@.samples, final(self)@.cursor) == outcomes(
                old(self)@.samples,
                old(self)@.cursor,
            ).skip(2),
    {
        let ghost samples = self@.samples;
        let ghost p0: int = self@.cursor;
        let ghost outs = outcomes(samples, p0);
        proof {
            assert(outs.skip(1)[0] == outs[1]);
        }
        let w1 = self.next_u32();
        let w2 = self.next_u32();
        proof {
            assert(outs.skip(1).skip(1) =~= outs.skip(2));
            lemma_pos_after_reads_snoc(samples, p0, 0);
            lemma_pos_after_reads_snoc(samples, p0, 1);
        }
        let r = ((w1 as u64) << 32) | (w2 as u64);
        proof {
            assert(((w1 as u64) << 32) | (w2 as u64) == (w1 as u64) * 0x1_0000_0000u64 + (
            w2 as u64)) by (bit_vector);
        }
        r
    }

    /// Infallible fill for the generic entropy-source surface: demands
    /// enough fault-free reads ahead, and the unverified surface wrapping it
    /// aborts where the peripheral faults instead.
    pub fn fill_bytes(&mut self, dest: &mut Vec<u8>)
        requires
            old(self).wf(),
            words_needed(old(dest)@.len() as int) <= outcomes(
                old(self)@.samples,
                old(self)@.cursor,
            ).len(),
            forall|k: int|
                0 <= k < words_needed(old(dest)@.len() as int) ==> (#[trigger] outcomes(
                    old(self)@.samples,
                    old(self)@.cursor,
                )[k]) is Ok,
        ensures
            final(self).wf(),
            final(self)@.samples == old(self)@.samples,
            final(self)@.enabled == old(self)@.enabled,
            final(dest)@.len() == old(dest)@.len(),
            buffer_filled(
                final(dest)@,
                outcomes(old(self)@.samples, old(self)@.cursor),
                words_needed(old(dest)@.len() as int),
            ),
            final(self)@.cursor == pos_after_reads(
                old(self)@.samples,
                old(self)@.cursor,
                words_needed(old(dest)@.len() as int),
            ),
            outcomes(final(self)@.samples, final(self)@.cursor) == outcomes(
                old(self)@.samples,
                old(self)@.cursor,
            ).skip(words_needed(old(dest)@.len() as int)),
    {
        match self.try_fill_bytes(dest) {
            Ok(_) => (),
            Err(_) => unreached(),
        }
    }

    /// The blocking byte-reader surface: it behaves as `try_fill_bytes`,
    /// except that a fault is reported as a generic entropy-source error
    /// carrying the faulted kind's reserved code.
    pub fn read(&mut self, buffer: &mut Vec<u8>) -> (r: Result<(), rand_core::Error>)
        requires
            old(self).wf(),
            fill_reads_available(
                outcomes(old(self)@.samples, old(self)@.cursor),
                words_needed(old(buffer)@.len() as int),
            ),
        ensures
            final(self).wf(),
            final(self)@.samples == old(self)@.samples,
            final(self)@.enabled == old(self)@.enabled,
            final(buffer)@.len() == old(buffer)@.len(),
            ({
                let outs = outcomes(old(self)@.samples, old(self)@.cursor);
                let n = old(buffer)@.len() as int;
                let need = words_needed(n);
                &&& (r is Ok <==> need <= outs.len() && (forall|k: int|
                    0 <= k < need ==> (#[trigger] outs[k]) is Ok))
                &&& (r is Ok ==> {
                    &&& buffer_filled(final(buffer)@, outs, need)
                    &&& outcomes(final(self)@.samples, final(self)@.cursor) == outs.skip(need)
                    &&& final(self)@.cursor == pos_after_reads(
                        old(self)@.samples,
                        old(self)@.cursor,
                        need,
                    )
                })
                &&& (r matches Err(e) ==> {
                    let f = first_err_at(outs);
                    &&& 0 <= f < need
                    &&& f < outs.len()
                    &&& outs[f] is Err
                    &&& error_code_of(e) == generic_code_of(outs[f]->Err_0)
                    &&& buffer_filled(final(buffer)@, outs, f)
                    &&& (forall|m: int| 4 * f <= m < n ==> final(buffer)@[m] == old(buffer)@[m])
                    &&& outcomes(final(self)@.samples, final(self)@.cursor) == outs.skip(f + 1)
                    &&& final(self)@.cursor == pos_after_reads(
                        old(self)@.samples,
                        old(self)@.cursor,
                        f + 1,
                    )
                })
            }),
    {
        match self.try_fill_bytes(buffer) {
            Ok(_) => Ok(()),
            Err(kind) => Err(kind.to_generic_error()),
        }
    }
}

/// Fault-priority law: on any one snapshot a latched clock error is
/// reported whatever the other flags say, a seed error is reported only
/// when the clock-error latch is clear, and the data word is returned only
/// when both fault latches are clear.
pub proof fn lemma_fault_priority(s: Sample)
    ensures
        s.status.clock_error ==> read_outcome(s) == Err::<u32, ErrorKind>(ErrorKind::ClockError),
        !s.status.clock_error && s.status.seed_error ==> read_outcome(s) == Err::<
            u32,
            ErrorKind,
        >(ErrorKind::SeedError),
        !s.status.clock_error && !s.status.seed_error ==> read_outcome(s) == Ok::<
            u32,
            ErrorKind,
        >(s.word),
{
}

/// Round-trip law: the handle that `release` returns presents the very
/// device state the driver held, so a released handle meets `init`'s
/// precondition exactly when its remaining script warms up safely, and the
/// driver that `init` then yields is placed just past the next ready
/// sample, still within the same script.
pub proof fn lemma_release_reinit(m: TrngModel)
    requires
        0 <= m.cursor <= m.samples.len(),
        init_pre(m),
    ensures
        first_ready_at(m.samples, m.cursor) < m.samples.len(),
        0 <= first_ready_at(m.samples, m.cursor) + 1 <= m.samples.len(),
{
    lemma_first_ready_bounds(m.samples, m.cursor);
}

/// Fault-free fill law: on a device whose remaining script is entirely
/// ready and fault-free, every poll is one successful word read.  Through
/// `try_fill_bytes`'s contract this gives that a fill of `n` bytes succeeds
/// and consumes exactly `words_needed(n)` word reads, one poll each,
/// whenever that many samples remain.
pub proof fn lemma_fault_free_outcomes(samples: Seq<Sample>, pos: int)
    requires
        0 <= pos <= samples.len(),
        forall|j: int|
            pos <= j < samples.len() ==> (#[trigger] samples[j]).status.data_ready
                && !samples[j].status.clock_error && !samples[j].status.seed_error,
    ensures
        outcomes(samples, pos).len() == samples.len() - pos,
        forall|k: int|
            0 <= k < samples.len() - pos ==> #[trigger] outcomes(samples, pos)[k] == Ok::<
                u32,
                ErrorKind,
            >(samples[pos + k].word),
    decreases samples.len() - pos,
{
    if pos < samples.len() {
        lemma_fault_free_outcomes(samples, pos + 1);
        assert forall|k: int| 0 <= k < samples.len() - pos implies #[trigger] outcomes(
            samples,
            pos,
        )[k] == Ok::<u32, ErrorKind>(samples[pos + k].word) by {
            if k > 0 {
                assert(outcomes(samples, pos)[k] == outcomes(samples, pos + 1)[k - 1]);
            }
        }
    }
}

} // verus!
