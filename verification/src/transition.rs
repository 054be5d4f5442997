//! Timed slide transitions and their combinators.
//!
//! A transition is a tree: a leaf is a single timed slide effect, a sequence
//! runs its first part to completion and then its second (each part keeps its
//! own local clock), a prolonged start holds for a delay before its child
//! begins, and a signal emitter fires one deferred signal the instant it is
//! reached and finishes in zero time.

use vstd::prelude::*;
use crate::palette::Rgb;
use crate::signal::Signal;
use crate::signal::SignalQueue;

verus! {

/// The edge cells slide toward or away from.
#[derive(Clone, Copy, PartialEq, Eq, Structural, Debug)]
pub enum Motion {
    UpToDown,
    DownToUp,
    LeftToRight,
    RightToLeft,
}

/// Interpolation curve of a slide's progress.
#[derive(Clone, Copy, PartialEq, Eq, Structural, Debug)]
pub enum Curve {
    Linear,
    QuadIn,
}

/// Whether cells enter from the configured edge or leave toward it.
#[derive(Clone, Copy, PartialEq, Eq, Structural, Debug)]
pub enum SlideKind {
    SlideIn,
    SlideOut,
}

/// One timed slide effect with its mutable progress.
#[derive(Clone, Copy, PartialEq, Eq, Structural, Debug)]
pub struct Primitive {
    pub kind: SlideKind,
    pub motion: Motion,
    /// Length in cells of the trailing gradient the slide drags behind it.
    pub gradient_len: u16,
    /// Per-cell randomness of the gradient, in cells.
    pub jitter: u16,
    /// The neutral color the region is slid toward or from.
    pub backdrop: Rgb,
    pub duration_ms: u64,
    pub curve: Curve,
    /// Accumulated local time; never exceeds `duration_ms`.
    pub elapsed_ms: u64,
    /// Set by the first tick; progress starts only then.
    pub started: bool,
}

/// What a slide shows at one instant: how far the cells still stand from
/// their resting place, in thousandths of the full travel. Offset 0 means
/// fully in place and visible; 1000 means fully offset behind the backdrop.
#[derive(Clone, Copy, PartialEq, Eq, Structural, Debug)]
pub struct VisualFrame {
    pub offset_permille: u16,
    pub motion: Motion,
    pub backdrop: Rgb,
}

/// Interpolated progress in thousandths, given local elapsed time.
pub open spec fn curve_permille(curve: Curve, elapsed: int, duration: int) -> int {
    let lin = if duration <= 0 {
        1000int
    } else {
        1000 * elapsed / duration
    };
    match curve {
        Curve::Linear => lin,
        Curve::QuadIn => lin * lin / 1000,
    }
}

/// The interpolated progress stays within 0..=1000 while local time stays
/// within the duration.
pub proof fn lemma_curve_permille_bounds(curve: Curve, elapsed: int, duration: int)
    requires
        0 <= elapsed <= duration,
    ensures
        0 <= curve_permille(curve, elapsed, duration) <= 1000,
{
    if duration > 0 {
        lemma_linear_permille_bounds(elapsed, duration);
        lemma_quad_bounds(1000 * elapsed / duration);
    } else {
        lemma_quad_bounds(1000);
    }
}

/// The linear interpolation stays within 0..=1000 while local time stays
/// within the duration.
pub proof fn lemma_linear_permille_bounds(elapsed: int, duration: int)
    requires
        0 <= elapsed <= duration,
        0 < duration,
    ensures
        0 <= 1000 * elapsed / duration <= 1000,
{
    assert(1000 * elapsed <= 1000 * duration) by {
        vstd::arithmetic::mul::lemma_mul_inequality(elapsed, duration, 1000);
    }
    assert(1000 * elapsed / duration <= 1000) by {
        vstd::arithmetic::div_mod::lemma_div_is_ordered(1000 * elapsed, 1000 * duration, duration);
        vstd::arithmetic::div_mod::lemma_div_multiples_vanish(1000, duration);
    }
    assert(0 <= 1000 * elapsed / duration) by {
        vstd::arithmetic::div_mod::lemma_div_pos_is_pos(1000 * elapsed, duration);
    }
}

proof fn lemma_quad_bounds(lin: int)
    requires
        0 <= lin <= 1000,
    ensures
        0 <= lin * lin / 1000 <= 1000,
{
    assert(lin * lin <= 1000 * 1000) by {
        vstd::arithmetic::mul::lemma_mul_upper_bound(lin, 1000, lin, 1000);
    }
    assert(lin * lin >= 0) by {
        vstd::arithmetic::mul::lemma_mul_nonnegative(lin, lin);
    }
    assert(lin * lin / 1000 <= 1000) by {
        vstd::arithmetic::div_mod::lemma_div_is_ordered(lin * lin, 1000int * 1000int, 1000);
        vstd::arithmetic::div_mod::lemma_div_multiples_vanish(1000, 1000);
    }
    assert(lin * lin / 1000 >= 0) by {
        vstd::arithmetic::div_mod::lemma_div_pos_is_pos(lin * lin, 1000);
    }
}

impl Primitive {
    /// Local time never runs past the duration, and never runs at all before
    /// the first tick.
    pub open spec fn wf(self) -> bool {
        &&& self.elapsed_ms <= self.duration_ms
        &&& (!self.started ==> self.elapsed_ms == 0)
    }

    /// Untouched: no tick has reached this effect yet.
    pub open spec fn pristine(self) -> bool {
        !self.started && self.elapsed_ms == 0
    }

    /// Finished exactly once local time has accumulated the full duration;
    /// stays finished thereafter.
    pub open spec fn finished(self) -> bool {
        self.started && self.elapsed_ms == self.duration_ms
    }

    /// The immutable parameters, apart from any progress.
    pub open spec fn cfg(self) -> (SlideKind, Motion, u16, u16, Rgb, u64, Curve) {
        (self.kind, self.motion, self.gradient_len, self.jitter, self.backdrop, self.duration_ms, self.curve)
    }

    /// What this slide shows at its current local time. A slide-in travels
    /// from fully offset to in place; a slide-out is the inverse, ending
    /// hidden behind the backdrop.
    pub open spec fn frame_spec(self) -> VisualFrame {
        let a = curve_permille(self.curve, self.elapsed_ms as int, self.duration_ms as int);
        let off = match self.kind {
            SlideKind::SlideIn => 1000 - a,
            SlideKind::SlideOut => a,
        };
        VisualFrame { offset_permille: off as u16, motion: self.motion, backdrop: self.backdrop }
    }

    /// Builds an effect that has not started yet.
    pub fn new(
        kind: SlideKind,
        motion: Motion,
        gradient_len: u16,
        jitter: u16,
        backdrop: Rgb,
        duration_ms: u64,
        curve: Curve,
    ) -> (p: Primitive)
        ensures
            p == (Primitive {
                kind,
                motion,
                gradient_len,
                jitter,
                backdrop,
                duration_ms,
                curve,
                elapsed_ms: 0,
                started: false,
            }),
    {
        Primitive {
            kind,
            motion,
            gradient_len,
            jitter,
            backdrop,
            duration_ms,
            curve,
            elapsed_ms: 0,
            started: false,
        }
    }

    /// Computes the current visual frame.
    pub fn render(&self) -> (f: VisualFrame)
        requires
            self.wf(),
        ensures
            f == self.frame_spec(),
            0 <= f.offset_permille <= 1000,
    {
        proof {
            lemma_curve_permille_bounds(self.curve, self.elapsed_ms as int, self.duration_ms as int);
        }
        let lin: u64;
        if self.duration_ms == 0 {
            lin = 1000;
        } else {
            proof {
                lemma_linear_permille_bounds(self.elapsed_ms as int, self.duration_ms as int);
            }
            lin = ((1000u128 * (self.elapsed_ms as u128)) / (self.duration_ms as u128)) as u64;
        }
        assert(lin as int == curve_permille(Curve::Linear, self.elapsed_ms as int, self.duration_ms as int));
        assert(0 <= lin <= 1000);
        let a: u64 = match self.curve {
            Curve::Linear => lin,
            Curve::QuadIn => {
                proof {
                    lemma_quad_bounds(lin as int);
                }
                lin * lin / 1000
            },
        };
        assert(a as int == curve_permille(self.curve, self.elapsed_ms as int, self.duration_ms as int));
        assert(a <= 1000);
        let off: u64 = match self.kind {
            SlideKind::SlideIn => 1000 - a,
            SlideKind::SlideOut => a,
        };
        VisualFrame { offset_permille: off as u16, motion: self.motion, backdrop: self.backdrop }
    }
}

/// Before its first tick, a slide rests at its starting frame: a slide-in
/// still fully offset behind the backdrop, a slide-out fully in place.
pub proof fn lemma_pristine_slide_frame(p: Primitive)
    requires
        p.pristine(),
        p.duration_ms > 0,
    ensures
        p.kind == SlideKind::SlideIn ==> p.frame_spec().offset_permille == 1000,
        p.kind == SlideKind::SlideOut ==> p.frame_spec().offset_permille == 0,
{
    assert(1000 * 0 == 0);
    assert(0int / (p.duration_ms as int) == 0) by {
        vstd::arithmetic::div_mod::lemma_div_of0(p.duration_ms as int);
    }
}

/// After finishing, a slide rests at its ending frame: a slide-in fully in
/// place and visible, a slide-out fully hidden behind the backdrop. Querying
/// it any later returns the same resting frame.
pub proof fn lemma_finished_slide_frame(p: Primitive)
    requires
        p.wf(),
        p.finished(),
    ensures
        p.kind == SlideKind::SlideIn ==> p.frame_spec().offset_permille == 0,
        p.kind == SlideKind::SlideOut ==> p.frame_spec().offset_permille == 1000,
{
    let d = p.duration_ms as int;
    if d > 0 {
        assert(1000 * d / d == 1000) by {
            vstd::arithmetic::div_mod::lemma_div_multiples_vanish(1000, d);
        }
    }
    assert(1000int * 1000int / 1000int == 1000);
}

/// A composed transition: the combinator tree.
pub enum Transition {
    /// A single timed slide.
    Leaf(Primitive),
    /// Runs the first part to completion, then the second. Time is not
    /// shared: each part keeps its own local clock, and time left over when
    /// the first part completes flows into the second within the same tick.
    Sequence(Box<Transition>, Box<Transition>),
    /// Holds for `delay_ms` of tick time before the child begins; during the
    /// hold the child rests untouched.
    ProlongStart { delay_ms: u64, held_ms: u64, child: Box<Transition> },
    /// Enqueues its payload the instant a tick reaches it and finishes in
    /// zero time; it never shows a visual frame and never blocks a sequence.
    SignalEmit { payload: Signal, emitted: bool },
}

impl Transition {
    /// Total tick time this tree absorbs before it is finished.
    pub open spec fn total(self) -> int
        decreases self,
    {
        match self {
            Transition::Leaf(p) => p.duration_ms as int,
            Transition::Sequence(a, b) => a.total() + b.total(),
            Transition::ProlongStart { delay_ms, child, .. } => delay_ms + child.total(),
            Transition::SignalEmit { .. } => 0,
        }
    }

    /// Tick time absorbed so far, summed over all local clocks.
    pub open spec fn consumed(self) -> int
        decreases self,
    {
        match self {
            Transition::Leaf(p) => p.elapsed_ms as int,
            Transition::Sequence(a, b) => a.consumed() + b.consumed(),
            Transition::ProlongStart { held_ms, child, .. } => held_ms + child.consumed(),
            Transition::SignalEmit { .. } => 0,
        }
    }

    /// No tick has reached any part of this tree.
    pub open spec fn pristine(self) -> bool
        decreases self,
    {
        match self {
            Transition::Leaf(p) => p.pristine(),
            Transition::Sequence(a, b) => a.pristine() && b.pristine(),
            Transition::ProlongStart { held_ms, child, .. } => held_ms == 0 && child.pristine(),
            Transition::SignalEmit { emitted, .. } => !emitted,
        }
    }

    /// The whole tree has run its course.
    pub open spec fn finished(self) -> bool
        decreases self,
    {
        match self {
            Transition::Leaf(p) => p.finished(),
            Transition::Sequence(a, b) => a.finished() && b.finished(),
            Transition::ProlongStart { delay_ms, held_ms, child } => held_ms == delay_ms
                && child.finished(),
            Transition::SignalEmit { emitted, .. } => emitted,
        }
    }

    /// Structural well-formedness: local clocks stay within their bounds,
    /// and everything behind the currently running stage rests untouched.
    pub open spec fn wf(self) -> bool
        decreases self,
    {
        match self {
            Transition::Leaf(p) => p.wf(),
            Transition::Sequence(a, b) => a.wf() && b.wf() && (!a.finished() ==> b.pristine()),
            Transition::ProlongStart { delay_ms, held_ms, child } => held_ms <= delay_ms && (
            held_ms < delay_ms ==> child.pristine()) && child.wf(),
            Transition::SignalEmit { .. } => true,
        }
    }

    /// The payloads of all signal emitters that have fired, in tree order.
    pub open spec fn emitted_signals(self) -> Seq<Signal>
        decreases self,
    {
        match self {
            Transition::Leaf(_) => Seq::empty(),
            Transition::Sequence(a, b) => a.emitted_signals() + b.emitted_signals(),
            Transition::ProlongStart { child, .. } => child.emitted_signals(),
            Transition::SignalEmit { payload, emitted } => if emitted {
                seq![payload]
            } else {
                Seq::empty()
            },
        }
    }

    /// Same combinator structure and the same immutable parameters,
    /// regardless of progress.
    pub open spec fn same_shape(self, other: Transition) -> bool
        decreases self,
    {
        match (self, other) {
            (Transition::Leaf(p), Transition::Leaf(q)) => p.cfg() == q.cfg(),
            (Transition::Sequence(a, b), Transition::Sequence(c, d)) => a.same_shape(*c)
                && b.same_shape(*d),
            (
                Transition::ProlongStart { delay_ms: d1, child: c1, .. },
                Transition::ProlongStart { delay_ms: d2, child: c2, .. },
            ) => d1 == d2 && c1.same_shape(*c2),
            (
                Transition::SignalEmit { payload: p1, .. },
                Transition::SignalEmit { payload: p2, .. },
            ) => p1 == p2,
            _ => false,
        }
    }
}

/// Every tree has the same shape as itself.
pub proof fn lemma_same_shape_reflexive(t: Transition)
    ensures
        t.same_shape(t),
    decreases t,
{
    match t {
        Transition::Leaf(_) => {},
        Transition::Sequence(a, b) => {
            lemma_same_shape_reflexive(*a);
            lemma_same_shape_reflexive(*b);
        },
        Transition::ProlongStart { child, .. } => {
            lemma_same_shape_reflexive(*child);
        },
        Transition::SignalEmit { .. } => {},
    }
}

/// An untouched tree has absorbed no time, has fired no signal, and is not
/// finished.
pub proof fn lemma_pristine_base(t: Transition)
    requires
        t.pristine(),
    ensures
        t.consumed() == 0,
        t.emitted_signals() == Seq::<Signal>::empty(),
        !t.finished(),
    decreases t,
{
    match t {
        Transition::Leaf(_) => {},
        Transition::Sequence(a, b) => {
            lemma_pristine_base(*a);
            lemma_pristine_base(*b);
            assert(t.emitted_signals() =~= Seq::<Signal>::empty());
        },
        Transition::ProlongStart { child, .. } => {
            lemma_pristine_base(*child);
        },
        Transition::SignalEmit { .. } => {},
    }
}

/// Absorbed time always lies between zero and the total.
pub proof fn lemma_consumed_bounds(t: Transition)
    requires
        t.wf(),
    ensures
        0 <= t.consumed() <= t.total(),
    decreases t,
{
    match t {
        Transition::Leaf(_) => {},
        Transition::Sequence(a, b) => {
            lemma_consumed_bounds(*a);
            lemma_consumed_bounds(*b);
        },
        Transition::ProlongStart { child, .. } => {
            lemma_consumed_bounds(*child);
        },
        Transition::SignalEmit { .. } => {},
    }
}

/// A finished tree has absorbed exactly its total.
pub proof fn lemma_finished_consumed(t: Transition)
    requires
        t.wf(),
        t.finished(),
    ensures
        t.consumed() == t.total(),
    decreases t,
{
    match t {
        Transition::Leaf(_) => {},
        Transition::Sequence(a, b) => {
            lemma_finished_consumed(*a);
            lemma_finished_consumed(*b);
        },
        Transition::ProlongStart { child, .. } => {
            lemma_finished_consumed(*child);
        },
        Transition::SignalEmit { .. } => {},
    }
}

impl Transition {
    /// Whether the whole tree has run its course.
    pub fn is_finished(&self) -> (r: bool)
        ensures
            r == self.finished(),
        decreases *self,
    {
        match self {
            Transition::Leaf(p) => p.started && p.elapsed_ms == p.duration_ms,
            Transition::Sequence(a, b) => a.is_finished() && b.is_finished(),
            Transition::ProlongStart { delay_ms, held_ms, child } => *held_ms == *delay_ms
                && child.is_finished(),
            Transition::SignalEmit { emitted, .. } => *emitted,
        }
    }

    /// What the tree shows now: the frame of the currently running stage, or
    /// of the nearest resting stage when nothing is running. A signal emitter
    /// never shows a frame; during a prolonged hold the child shows its
    /// untouched starting frame.
    pub open spec fn render_spec(self) -> Option<VisualFrame>
        decreases self,
    {
        match self {
            Transition::Leaf(p) => Some(p.frame_spec()),
            Transition::SignalEmit { .. } => None,
            Transition::ProlongStart { child, .. } => child.render_spec(),
            Transition::Sequence(a, b) => if !a.finished() {
                if a.render_spec() is Some {
                    a.render_spec()
                } else {
                    b.render_spec()
                }
            } else {
                if b.render_spec() is Some {
                    b.render_spec()
                } else {
                    a.render_spec()
                }
            },
        }
    }

    /// Computes the current visual frame, if any stage shows one.
    pub fn render(&self) -> (f: Option<VisualFrame>)
        requires
            self.wf(),
        ensures
            f == self.render_spec(),
        decreases *self,
    {
        match self {
            Transition::Leaf(p) => Some(p.render()),
            Transition::SignalEmit { .. } => None,
            Transition::ProlongStart { child, .. } => child.render(),
            Transition::Sequence(a, b) => {
                if !a.is_finished() {
                    let fa = a.render();
                    if fa.is_some() {
                        fa
                    } else {
                        b.render()
                    }
                } else {
                    let fb = b.render();
                    if fb.is_some() {
                        fb
                    } else {
                        a.render()
                    }
                }
            },
        }
    }

    /// How many signal emitters the tree holds.
    pub open spec fn emitter_count(self) -> int
        decreases self,
    {
        match self {
            Transition::Leaf(_) => 0,
            Transition::Sequence(a, b) => a.emitter_count() + b.emitter_count(),
            Transition::ProlongStart { child, .. } => child.emitter_count(),
            Transition::SignalEmit { .. } => 1,
        }
    }

    /// Advances the tree by `delta` milliseconds of tick time, enqueueing on
    /// `q` every deferred signal the advance reaches, and returns the renewed
    /// tree together with the time left over beyond what the tree could
    /// absorb.
    ///
    /// Progress accumulates monotonically up to the total; the tree is
    /// finished exactly when the time fed into it reaches its total, however
    /// that time was split into ticks; a finished tree is left untouched; and
    /// the queue grows by exactly the newly fired signals, in order.
    pub fn tick(self, delta: u64, q: &mut SignalQueue) -> (r: (Transition, u64))
        requires
            self.wf(),
        ensures
            r.0.wf(),
            r.0.same_shape(self),
            r.0.total() == self.total(),
            r.0.consumed() == vstd::math::min(self.consumed() + delta, self.total()),
            r.1 == self.consumed() + delta - r.0.consumed(),
            r.0.finished() <==> self.consumed() + delta >= self.total(),
            self.emitted_signals().is_prefix_of(r.0.emitted_signals()),
            final(q)@ == old(q)@ + r.0.emitted_signals().skip(self.emitted_signals().len() as int),
            self.finished() ==> r.0 == self,
        decreases self,
    {
        match self {
            Transition::Leaf(p) => {
                let need = p.duration_ms - p.elapsed_ms;
                let (new_elapsed, leftover): (u64, u64) = if delta >= need {
                    (p.duration_ms, delta - need)
                } else {
                    (p.elapsed_ms + delta, 0)
                };
                let next = Primitive {
                    kind: p.kind,
                    motion: p.motion,
                    gradient_len: p.gradient_len,
                    jitter: p.jitter,
                    backdrop: p.backdrop,
                    duration_ms: p.duration_ms,
                    curve: p.curve,
                    elapsed_ms: new_elapsed,
                    started: true,
                };
                proof {
                    assert(final(q)@ =~= old(q)@ + Transition::Leaf(next).emitted_signals().skip(0));
                }
                (Transition::Leaf(next), leftover)
            },
            Transition::SignalEmit { payload, emitted } => {
                if emitted {
                    proof {
                        assert(final(q)@ =~= old(q)@ + seq![payload].skip(1));
                    }
                    (Transition::SignalEmit { payload, emitted }, delta)
                } else {
                    q.send(payload);
                    proof {
                        assert(final(q)@ =~= old(q)@.push(payload));
                        assert(old(q)@.push(payload) =~= old(q)@ + seq![payload].skip(0));
                    }
                    (Transition::SignalEmit { payload, emitted: true }, delta)
                }
            },
            Transition::ProlongStart { delay_ms, held_ms, child } => {
                proof {
                    lemma_consumed_bounds(*child);
                }
                if held_ms < delay_ms {
                    proof {
                        lemma_pristine_base(*child);
                    }
                    let need = delay_ms - held_ms;
                    if delta >= need {
                        let (c2, lc) = (*child).tick(delta - need, q);
                        (
                            Transition::ProlongStart {
                                delay_ms,
                                held_ms: delay_ms,
                                child: Box::new(c2),
                            },
                            lc,
                        )
                    } else {
                        proof {
                            lemma_same_shape_reflexive(*child);
                            assert(final(q)@ =~= old(q)@ + child.emitted_signals().skip(
                                child.emitted_signals().len() as int));
                        }
                        (
                            Transition::ProlongStart {
                                delay_ms,
                                held_ms: held_ms + delta,
                                child,
                            },
                            0,
                        )
                    }
                } else {
                    let (c2, lc) = (*child).tick(delta, q);
                    (
                        Transition::ProlongStart { delay_ms, held_ms, child: Box::new(c2) },
                        lc,
                    )
                }
            },
            Transition::Sequence(a, b) => {
                let ghost a_old = *a;
                let ghost b_old = *b;
                proof {
                    lemma_consumed_bounds(*a);
                    lemma_consumed_bounds(*b);
                    if !a_old.finished() {
                        lemma_pristine_base(*b);
                    } else {
                        lemma_finished_consumed(*a);
                    }
                }
                let (a2, la) = (*a).tick(delta, q);
                if a2.is_finished() {
                    proof {
                        lemma_finished_consumed(a2);
                    }
                    let ghost q_mid = *q;
                    let (b2, lb) = (*b).tick(la, q);
                    proof {
                        let ea = a_old.emitted_signals();
                        let eb = b_old.emitted_signals();
                        let ea2 = a2.emitted_signals();
                        let eb2 = b2.emitted_signals();
                        if a_old.finished() {
                            assert(ea2 == ea);
                            assert((ea + eb).is_prefix_of(ea2 + eb2));
                            assert((ea2 + eb2).skip((ea + eb).len() as int) =~= eb2.skip(
                                eb.len() as int));
                            assert(final(q)@ =~= old(q)@ + (ea2 + eb2).skip((ea + eb).len() as int));
                        } else {
                            assert(eb =~= Seq::<Signal>::empty());
                            assert(ea + eb =~= ea);
                            assert((ea + eb).is_prefix_of(ea2 + eb2));
                            assert(eb2.skip(0) =~= eb2);
                            assert((ea2 + eb2).skip((ea + eb).len() as int) =~= ea2.skip(
                                ea.len() as int) + eb2);
                            assert(final(q)@ =~= old(q)@ + (ea2 + eb2).skip((ea + eb).len() as int));
                        }
                    }
                    (Transition::Sequence(Box::new(a2), Box::new(b2)), lb)
                } else {
                    proof {
                        lemma_same_shape_reflexive(*b);
                        let ea = a_old.emitted_signals();
                        let eb = b_old.emitted_signals();
                        let ea2 = a2.emitted_signals();
                        assert(eb =~= Seq::<Signal>::empty());
                        assert(ea + eb =~= ea);
                        assert((ea + eb).is_prefix_of(ea2 + eb));
                        assert((ea2 + eb).skip((ea + eb).len() as int) =~= ea2.skip(
                            ea.len() as int));
                        assert(final(q)@ =~= old(q)@ + (ea2 + eb).skip((ea + eb).len() as int));
                    }
                    (Transition::Sequence(Box::new(a2), b), 0)
                }
            },
        }
    }
}

/// The sum of a batch of tick intervals.
pub open spec fn interval_sum(deltas: Seq<int>) -> int
    decreases deltas.len(),
{
    if deltas.len() == 0 {
        0
    } else {
        deltas[0] + interval_sum(deltas.skip(1))
    }
}

/// Absorbed time after feeding a batch of tick intervals, one after another,
/// into a transition whose total is `total` and which has absorbed `c` so
/// far: each interval accumulates, capped at the total, exactly as one call
/// of `tick` does.
pub open spec fn absorbed_after(c: int, deltas: Seq<int>, total: int) -> int
    decreases deltas.len(),
{
    if deltas.len() == 0 {
        c
    } else {
        absorbed_after(vstd::math::min(c + deltas[0], total), deltas.skip(1), total)
    }
}

/// Monotonicity law of ticking: non-negative tick intervals accumulate
/// absorbed time up to the total, however the time is split into intervals;
/// in particular the transition reaches its total — is finished — exactly
/// when the intervals sum to at least the time it still lacked.
pub proof fn lemma_tick_partition(c: int, deltas: Seq<int>, total: int)
    requires
        0 <= c <= total,
        forall|i: int| 0 <= i < deltas.len() ==> deltas[i] >= 0,
    ensures
        absorbed_after(c, deltas, total) == vstd::math::min(c + interval_sum(deltas), total),
        absorbed_after(c, deltas, total) == total <==> c + interval_sum(deltas) >= total,
    decreases deltas.len(),
{
    if deltas.len() == 0 {
    } else {
        let c1 = vstd::math::min(c + deltas[0], total);
        assert(forall|i: int|
            0 <= i < deltas.skip(1).len() ==> #[trigger] deltas.skip(1)[i] >= 0);
        lemma_interval_sum_nonneg(deltas.skip(1));
        lemma_tick_partition(c1, deltas.skip(1), total);
    }
}

/// A batch of non-negative tick intervals sums to a non-negative amount.
pub proof fn lemma_interval_sum_nonneg(deltas: Seq<int>)
    requires
        forall|i: int| 0 <= i < deltas.len() ==> deltas[i] >= 0,
    ensures
        interval_sum(deltas) >= 0,
    decreases deltas.len(),
{
    if deltas.len() == 0 {
    } else {
        assert(forall|i: int|
            0 <= i < deltas.skip(1).len() ==> #[trigger] deltas.skip(1)[i] >= 0);
        lemma_interval_sum_nonneg(deltas.skip(1));
    }
}

/// Each signal emitter fires at most once: a tree can never have emitted
/// more signals than it has emitters, and `tick` only ever extends the
/// emitted sequence.
pub proof fn lemma_emitted_at_most_once(t: Transition)
    ensures
        t.emitted_signals().len() <= t.emitter_count(),
        0 <= t.emitter_count(),
    decreases t,
{
    match t {
        Transition::Leaf(_) => {},
        Transition::Sequence(a, b) => {
            lemma_emitted_at_most_once(*a);
            lemma_emitted_at_most_once(*b);
        },
        Transition::ProlongStart { child, .. } => {
            lemma_emitted_at_most_once(*child);
        },
        Transition::SignalEmit { .. } => {},
    }
}

/// A deferred signal fires strictly before the stage after it runs: while
/// the first part of a sequence is unfinished — in particular, while an
/// unfired signal emitter stands in it — the second part rests untouched at
/// its starting frame.
pub proof fn lemma_unfinished_stage_guards_next(t: Transition)
    requires
        t.wf(),
        t matches Transition::Sequence(a, b) && !a.finished(),
    ensures
        t matches Transition::Sequence(a, b) ==> b.pristine() && b.consumed() == 0
            && b.emitted_signals() == Seq::<Signal>::empty(),
{
    match t {
        Transition::Sequence(_, b) => {
            lemma_pristine_base(*b);
        },
        _ => {},
    }
}

/// Two slides run in sequence are finished exactly when the cumulative local
/// elapsed time across both stages reaches the sum of their durations.
pub proof fn lemma_two_stage_finished_iff(t: Transition, p1: Primitive, p2: Primitive)
    requires
        t.wf(),
        t matches Transition::Sequence(a, b) && *a == Transition::Leaf(p1) && *b
            == Transition::Leaf(p2),
        p1.duration_ms > 0,
        p2.duration_ms > 0,
    ensures
        t.consumed() == p1.elapsed_ms + p2.elapsed_ms,
        t.total() == p1.duration_ms + p2.duration_ms,
        t.finished() <==> t.consumed() >= p1.duration_ms + p2.duration_ms,
{
    match t {
        Transition::Sequence(a, b) => {
            assert((*a).consumed() == p1.elapsed_ms);
            assert((*b).consumed() == p2.elapsed_ms);
            assert((*a).total() == p1.duration_ms);
            assert((*b).total() == p2.duration_ms);
            assert((*a).finished() == p1.finished());
            assert((*b).finished() == p2.finished());
            assert((*a).wf() == p1.wf());
            assert((*b).wf() == p2.wf());
        },
        _ => {},
    }
}

} // verus!
