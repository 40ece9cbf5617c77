//! Dual-channel progress coalescing.
//!
//! Raw per-element and per-column counters are converted into two
//! rate-limited external signals:
//! * a numeric percentage signal, emitted only when it has advanced by
//!   more than a quarter of a percentage point since the last emission,
//!   and recorded as an exact rational so the signal can be shown
//!   non-decreasing and exactly 100 on completion;
//! * an interactive step counter, advanced in batches so the number of
//!   console updates stays bounded for any work-load size.

use vstd::prelude::*;

verus! {

/// Upper bound on the work units of one phase: unit counts come from a
/// vector length or a grid-column count, both of which fit in 64 bits.
pub const MAX_PHASE_UNITS: u128 = 0x1_0000_0000_0000_0000;

/// An exact percentage value `num / den`.
#[derive(Clone, Copy, Debug)]
pub struct Percent {
    pub num: u128,
    pub den: u128,
}

impl Percent {
    pub open spec fn wf(&self) -> bool {
        1 <= self.den && self.num <= 100 * self.den
    }

    /// `self <= other`, as rationals.
    pub open spec fn le(&self, other: Percent) -> bool {
        self.num * other.den <= other.num * self.den
    }

    /// The signal value is exactly the whole percentage `v`.
    pub open spec fn is_exactly(&self, v: int) -> bool {
        self.num == v * self.den
    }

    /// A whole percentage.
    pub fn whole(v: u128) -> (p: Percent)
        requires
            v <= 100,
        ensures
            p.wf(),
            p.num == v,
            p.den == 1,
    {
        Percent { num: v, den: 1 }
    }
}

/// `le` is transitive.
pub proof fn lemma_percent_le_trans(a: Percent, b: Percent, c: Percent)
    requires
        1 <= a.den,
        1 <= b.den,
        1 <= c.den,
        a.le(b),
        b.le(c),
    ensures
        a.le(c),
{
    assert(a.num * c.den <= c.num * a.den) by (nonlinear_arith)
        requires
            a.num * b.den <= b.num * a.den,
            b.num * c.den <= c.num * b.den,
            1 <= a.den,
            1 <= b.den,
            1 <= c.den,
    ;
}

/// Sink for the numeric progress signal.  Implementations forward the
/// value to whatever user interface is listening; nothing is assumed of
/// them.
pub trait ProgressSink {
    fn notify(&mut self, percent: Percent, message: &str);
}

/// Sink for the interactive console step counter.
pub trait ConsoleSink {
    /// A stage banner for the console.
    fn stage(&mut self, message: &str);

    /// A phase with `total` work units begins.
    fn start(&mut self, total: u64);

    /// `count` more units finished.
    fn add(&mut self, count: u64);

    /// Show which element is being processed (verbose diagnostics).
    fn element_message(&mut self, id: u64, kind: &str);

    /// Clear the per-element message.
    fn clear_message(&mut self);

    /// The phase is over.
    fn finish(&mut self);
}

/// The record of every percentage value emitted during a run.
pub struct GuiSignal {
    emitted: Vec<Percent>,
}

impl View for GuiSignal {
    type V = Seq<Percent>;

    closed spec fn view(&self) -> Seq<Percent> {
        self.emitted@
    }
}

impl GuiSignal {
    /// Every recorded value is a well-formed percentage and the record
    /// is non-decreasing.
    pub open spec fn wf(&self) -> bool {
        &&& forall|i: int| 0 <= i < self@.len() ==> (#[trigger] self@[i]).wf()
        &&& forall|i: int, j: int|
            0 <= i <= j < self@.len() ==> (#[trigger] self@[i]).le(#[trigger] self@[j])
    }

    /// The last emitted value, or zero before any emission.
    pub open spec fn last_emitted(&self) -> Percent {
        if self@.len() == 0 {
            Percent { num: 0, den: 1 }
        } else {
            self@.last()
        }
    }

    pub fn new() -> (s: GuiSignal)
        ensures
            s@ =~= Seq::<Percent>::empty(),
            s.wf(),
    {
        GuiSignal { emitted: Vec::new() }
    }

    /// How many values have been emitted.
    pub fn len(&self) -> (n: usize)
        ensures
            n == self@.len(),
    {
        self.emitted.len()
    }

    /// Read back an emitted value.
    pub fn get(&self, i: usize) -> (p: Percent)
        requires
            i < self@.len(),
        ensures
            p == self@[i as int],
    {
        self.emitted[i]
    }

    /// Record one emission; the signal never decreases.
    pub fn record(&mut self, p: Percent)
        requires
            old(self).wf(),
            p.wf(),
            old(self).last_emitted().le(p),
        ensures
            final(self)@ == old(self)@.push(p),
            final(self).wf(),
            final(self).last_emitted() == p,
    {
        proof {
            let s0 = self@;
            assert forall|i: int| 0 <= i < s0.len() implies (#[trigger] s0[i]).le(p) by {
                assert(s0[i].le(s0[s0.len() - 1]));
                lemma_percent_le_trans(s0[i], s0[s0.len() - 1], p);
            }
        }
        self.emitted.push(p);
    }
}

/// One phase of the percentage signal: the phase covers
/// `base ..= base + span` percent, divided evenly over `units` work
/// units; an emission happens only when the signal has advanced by more
/// than a quarter point since the last one.
pub struct PhaseProgress {
    pub base: u128,
    pub span: u128,
    pub units: u128,
    pub done: u128,
    pub last_done: u128,
}

impl PhaseProgress {
    pub open spec fn wf(&self) -> bool {
        &&& 1 <= self.units <= MAX_PHASE_UNITS
        &&& self.base + self.span <= 100
        &&& self.last_done <= self.done <= self.units
    }

    /// The value of the signal after `d` units of this phase.
    pub open spec fn value_at(&self, d: int) -> int {
        self.base * self.units + self.span * d
    }

    /// The last value this phase emitted (or its opening value): a
    /// lower bound for the whole signal while the phase runs.
    pub open spec fn emitted_floor(&self) -> Percent {
        Percent { num: self.value_at(self.last_done as int) as u128, den: self.units }
    }

    /// Begin a phase.  A phase exists only for non-empty work-loads:
    /// an empty phase emits nothing at all.
    pub fn begin(base: u128, span: u128, units: u128) -> (ph: PhaseProgress)
        requires
            1 <= units <= MAX_PHASE_UNITS,
            base + span <= 100,
        ensures
            ph.wf(),
            ph.base == base,
            ph.span == span,
            ph.units == units,
            ph.done == 0,
            ph.last_done == 0,
    {
        PhaseProgress { base, span, units, done: 0, last_done: 0 }
    }

    /// Account one finished work unit; `Some(p)` means the signal
    /// advanced by more than a quarter point and `p` is to be emitted.
    pub fn step(&mut self) -> (r: Option<Percent>)
        requires
            old(self).wf(),
            old(self).done < old(self).units,
        ensures
            final(self).wf(),
            final(self).base == old(self).base,
            final(self).span == old(self).span,
            final(self).units == old(self).units,
            final(self).done == old(self).done + 1,
            r is Some <==> 4 * old(self).span * (old(self).done + 1 - old(self).last_done)
                > old(self).units,
            match r {
                Some(p) => {
                    &&& p.wf()
                    &&& final(self).last_done == final(self).done
                    &&& p == final(self).emitted_floor()
                    &&& old(self).emitted_floor().le(p)
                },
                None => {
                    &&& final(self).last_done == old(self).last_done
                    &&& final(self).emitted_floor() == old(self).emitted_floor()
                },
            },
    {
        proof {
            assert(self.span <= 100);
            assert(4 * self.span * (self.done + 1 - self.last_done) < u128::MAX) by (nonlinear_arith)
                requires
                    self.span <= 100,
                    0 <= self.done + 1 - self.last_done <= MAX_PHASE_UNITS,
            ;
        }
        self.done = self.done + 1;
        let diff = self.done - self.last_done;
        if 4 * self.span * diff > self.units {
            self.last_done = self.done;
            proof {
                assert(self.base * self.units + self.span * self.done <= 100 * self.units
                    < u128::MAX) by (nonlinear_arith)
                    requires
                        self.base + self.span <= 100,
                        self.done <= self.units,
                        1 <= self.units <= MAX_PHASE_UNITS,
                ;
            }
            let num = self.base * self.units + self.span * self.done;
            let p = Percent { num, den: self.units };
            proof {
                let b = self.base;
                let sp = self.span;
                let u = self.units;
                let d = self.done;
                let ld0 = old(self).last_done;
                assert((b * u + sp * ld0) * u <= (b * u + sp * d) * u && b * u + sp * ld0 <= b
                    * u + sp * d && b * u + sp * d <= 100 * u) by (nonlinear_arith)
                    requires
                        0 <= ld0 <= d <= u,
                        0 <= b,
                        0 <= sp,
                        b + sp <= 100,
                        1 <= u,
                ;
                assert(old(self).emitted_floor().num == b * u + sp * ld0);
                assert(old(self).emitted_floor().le(p));
                assert(p.wf());
            }
            Some(p)
        } else {
            None
        }
    }
}

/// While a phase runs, everything it has emitted stays at or below any
/// whole-percent value at or above the end of its range.
pub proof fn lemma_floor_le_whole(ph: PhaseProgress, v: u128)
    requires
        ph.wf(),
        ph.base + ph.span <= v,
        v <= 100,
    ensures
        ph.emitted_floor().le(Percent { num: v as u128, den: 1 }),
{
    assert((ph.base * ph.units + ph.span * ph.last_done) * 1 <= v * ph.units && ph.base
        * ph.units + ph.span * ph.last_done <= 100 * ph.units) by (nonlinear_arith)
        requires
            ph.base + ph.span <= v,
            v <= 100,
            0 <= ph.base,
            0 <= ph.span,
            0 <= ph.last_done <= ph.units,
            1 <= ph.units,
    ;
}

/// A whole-percent value at or below the opening of a phase stays at or
/// below everything the phase emits.
pub proof fn lemma_whole_le_floor(v: u128, ph: PhaseProgress)
    requires
        ph.wf(),
        v <= ph.base,
    ensures
        (Percent { num: v as u128, den: 1 }).le(ph.emitted_floor()),
{
    assert(v * ph.units <= (ph.base * ph.units + ph.span * ph.last_done) * 1 && ph.base
        * ph.units + ph.span * ph.last_done <= 100 * ph.units) by (nonlinear_arith)
        requires
            v <= ph.base,
            0 <= ph.last_done <= ph.units,
            0 <= ph.span,
            ph.base + ph.span <= 100,
            1 <= ph.units,
    ;
}

/// The interactive console counter, advanced in batches of
/// `max(total / desired_updates, 1)` units.
pub struct ConsoleBatcher {
    pub total: u64,
    pub batch: u64,
    pub count: u64,
    pub emitted: u64,
    pub pending: u64,
}

impl ConsoleBatcher {
    pub open spec fn wf(&self) -> bool {
        &&& 1 <= self.batch
        &&& self.pending < self.batch
        &&& self.count <= self.total
        &&& self.emitted + self.pending == self.count
    }

    /// Units counted but not yet shown on the console.
    pub open spec fn remainder(&self) -> int {
        self.pending as int
    }

    pub fn new(total: u64, desired_updates: u64) -> (c: ConsoleBatcher)
        requires
            1 <= desired_updates,
        ensures
            c.wf(),
            c.total == total,
            c.count == 0,
            c.emitted == 0,
            c.pending == 0,
            c.batch == if total / desired_updates >= 1 {
                total / desired_updates
            } else {
                1u64
            },
    {
        let b = total / desired_updates;
        let batch = if b < 1 { 1 } else { b };
        ConsoleBatcher { total, batch, count: 0, emitted: 0, pending: 0 }
    }

    /// Account one unit; the result is the increment to show on the
    /// console (zero until a full batch has accumulated).
    pub fn unit(&mut self) -> (inc: u64)
        requires
            old(self).wf(),
            old(self).count < old(self).total,
        ensures
            final(self).wf(),
            final(self).total == old(self).total,
            final(self).batch == old(self).batch,
            final(self).count == old(self).count + 1,
            final(self).emitted == old(self).emitted + inc,
            inc == if old(self).pending + 1 == old(self).batch {
                old(self).batch as int
            } else {
                0
            },
    {
        self.count = self.count + 1;
        self.pending = self.pending + 1;
        if self.pending == self.batch {
            self.pending = 0;
            self.emitted = self.emitted + self.batch;
            self.batch
        } else {
            0
        }
    }

    /// The increment that shows the units of the last partial batch.
    pub fn finish_inc(&self) -> (inc: u64)
        requires
            self.wf(),
        ensures
            inc == self.remainder(),
    {
        self.pending
    }
}

/// No unit is lost or counted twice: what the console has been shown,
/// plus the final partial-batch increment, is exactly the number of
/// units accounted.
pub proof fn lemma_console_units_conserved(c: ConsoleBatcher)
    requires
        c.wf(),
    ensures
        c.emitted + c.remainder() == c.count,
{
}

} // verus!
