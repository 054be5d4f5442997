//! The animation orchestrator: one transition per named screen region, a
//! deferred signal channel, and the palette cycler. A palette-switch request
//! rebuilds every region's transition as slide-out-then-slide-in, embedding
//! one deferred palette-switch signal in the title region's sequence; each
//! frame drains the channel — committing at most one palette advance — and
//! then advances every region by the frame's elapsed time.

use vstd::prelude::*;
use crate::palette::Palette;
use crate::palette::PaletteCycler;
use crate::palette::Rgb;
use crate::signal::Signal;
use crate::signal::SignalQueue;
use crate::transition::Curve;
use crate::transition::Motion;
use crate::transition::Primitive;
use crate::transition::SlideKind;
use crate::transition::Transition;
use crate::transition::VisualFrame;

verus! {

/// How many independently animated screen regions there are.
pub const REGION_COUNT: usize = 7;

/// The named screen regions, in the order the orchestrator stores them.
#[derive(Clone, Copy, PartialEq, Eq, Structural, Debug)]
pub enum Region {
    Title,
    MiniAbout,
    Links,
    About,
    Headshot,
    Tabs,
    Help,
}

impl Region {
    /// Where this region's transition stands in the orchestrator.
    pub open spec fn index_spec(self) -> int {
        match self {
            Region::Title => 0,
            Region::MiniAbout => 1,
            Region::Links => 2,
            Region::About => 3,
            Region::Headshot => 4,
            Region::Tabs => 5,
            Region::Help => 6,
        }
    }

    /// Computes this region's slot index.
    pub fn index(self) -> (i: usize)
        ensures
            i as int == self.index_spec(),
            i < REGION_COUNT,
    {
        match self {
            Region::Title => 0,
            Region::MiniAbout => 1,
            Region::Links => 2,
            Region::About => 3,
            Region::Headshot => 4,
            Region::Tabs => 5,
            Region::Help => 6,
        }
    }
}

/// The slide every choreography is built from: half a second, linear, cells
/// moving bottom-up with a ten-cell gradient.
pub open spec fn slide_spec(kind: SlideKind, backdrop: Rgb) -> Primitive {
    Primitive {
        kind,
        motion: Motion::DownToUp,
        gradient_len: 10,
        jitter: 1,
        backdrop,
        duration_ms: 500,
        curve: Curve::Linear,
        elapsed_ms: 0,
        started: false,
    }
}

/// The startup choreography of one region: a slide-in, delayed by the
/// region's stagger when it has one.
pub open spec fn entrance_tree_spec(delay: u64, backdrop: Rgb) -> Transition {
    if delay == 0 {
        Transition::Leaf(slide_spec(SlideKind::SlideIn, backdrop))
    } else {
        Transition::ProlongStart {
            delay_ms: delay,
            held_ms: 0,
            child: Box::new(Transition::Leaf(slide_spec(SlideKind::SlideIn, backdrop))),
        }
    }
}

/// The palette-switch choreography of an ordinary region: after a stagger
/// delay, slide the old colors out behind the backdrop, then slide back in.
pub open spec fn switch_tree_spec(delay: u64, backdrop: Rgb) -> Transition {
    Transition::Sequence(
        Box::new(
            Transition::ProlongStart {
                delay_ms: delay,
                held_ms: 0,
                child: Box::new(Transition::Leaf(slide_spec(SlideKind::SlideOut, backdrop))),
            },
        ),
        Box::new(Transition::Leaf(slide_spec(SlideKind::SlideIn, backdrop))),
    )
}

/// The title region's palette-switch choreography: the same slide-out and
/// slide-in, with the deferred palette-switch signal emitted between them —
/// exactly when the screen stands fully behind the backdrop.
pub open spec fn switch_tree_signal_spec(backdrop: Rgb) -> Transition {
    Transition::Sequence(
        Box::new(
            Transition::ProlongStart {
                delay_ms: 0,
                held_ms: 0,
                child: Box::new(Transition::Leaf(slide_spec(SlideKind::SlideOut, backdrop))),
            },
        ),
        Box::new(
            Transition::Sequence(
                Box::new(Transition::SignalEmit { payload: Signal::PaletteSwitch, emitted: false }),
                Box::new(Transition::Leaf(slide_spec(SlideKind::SlideIn, backdrop))),
            ),
        ),
    )
}

/// The startup stagger, in milliseconds, of each region slot.
pub open spec fn entrance_delay_spec(i: int) -> u64 {
    if i == 1 {
        100
    } else if i == 2 {
        150
    } else if i == 3 {
        90
    } else if i == 4 {
        20
    } else {
        0
    }
}

/// What one region's transition at startup looks like.
pub open spec fn initial_tree_spec(i: int, backdrop: Rgb) -> Transition {
    entrance_tree_spec(entrance_delay_spec(i), backdrop)
}

/// The signals a renewed transition has fired beyond what it had already
/// fired before.
pub open spec fn new_emissions(before: Transition, after: Transition) -> Seq<Signal> {
    after.emitted_signals().skip(before.emitted_signals().len() as int)
}

/// The new emissions of the first `k` regions, in region order.
pub open spec fn all_new_emissions(
    before: Seq<Transition>,
    after: Seq<Transition>,
    k: int,
) -> Seq<Signal>
    decreases k,
{
    if k <= 0 {
        Seq::empty()
    } else {
        all_new_emissions(before, after, k - 1) + new_emissions(before[k - 1], after[k - 1])
    }
}

/// The new emissions of the first `k` regions depend only on those regions.
proof fn lemma_all_new_emissions_agree(
    before: Seq<Transition>,
    n1: Seq<Transition>,
    n2: Seq<Transition>,
    k: int,
)
    requires
        forall|j: int| 0 <= j < k ==> n1[j] == n2[j],
    ensures
        all_new_emissions(before, n1, k) == all_new_emissions(before, n2, k),
    decreases k,
{
    if k > 0 {
        lemma_all_new_emissions_agree(before, n1, n2, k - 1);
    }
}

/// The deferred palette-switch signal is observed strictly before the
/// reveal: in a title choreography, as long as the embedded signal has not
/// fired, the slide-in stage after it rests untouched — it has absorbed no
/// time, so it still shows its fully hidden starting frame.
pub proof fn lemma_signal_precedes_reveal(t: Transition)
    requires
        t.wf(),
        t matches Transition::Sequence(out_stage, rest) && *rest matches Transition::Sequence(
            sig,
            reveal,
        ) && (*sig matches Transition::SignalEmit { emitted, .. } && !emitted),
    ensures
        t matches Transition::Sequence(out_stage, rest) && *rest matches Transition::Sequence(
            sig,
            reveal,
        ) ==> reveal.pristine() && reveal.consumed() == 0,
{
    reveal_with_fuel(Transition::wf, 3);
    reveal_with_fuel(Transition::finished, 2);
    match t {
        Transition::Sequence(_, rest) => {
            match *rest {
                Transition::Sequence(sig, reveal) => {
                    assert(!sig.finished());
                    assert(reveal.pristine());
                    crate::transition::lemma_pristine_base(*reveal);
                },
                _ => {},
            }
        },
        _ => {},
    }
}

/// Owns one transition per screen region, the deferred signal channel, and
/// the palette cycler whose current palette colors every widget.
pub struct Orchestrator {
    transitions: Vec<Transition>,
    queue: SignalQueue,
    cycler: PaletteCycler,
}

impl Orchestrator {
    /// The per-region transitions, in region order.
    pub closed spec fn trees(&self) -> Seq<Transition> {
        self.transitions@
    }

    /// The signals waiting in the deferred channel.
    pub closed spec fn pending(&self) -> Seq<Signal> {
        self.queue@
    }

    /// The palette cycler as it stands.
    pub closed spec fn cycler_view(&self) -> PaletteCycler {
        self.cycler
    }

    /// One well-formed transition per region, over a well-formed cycler.
    pub open spec fn wf(&self) -> bool {
        &&& self.trees().len() == REGION_COUNT
        &&& forall|i: int| 0 <= i < REGION_COUNT ==> (#[trigger] self.trees()[i]).wf()
        &&& self.cycler_view().wf()
    }

    /// Builds the orchestrator at startup: every region slides in against
    /// the current palette's background, lightly staggered, and no signal is
    /// pending.
    pub fn new(cycler: PaletteCycler) -> (o: Orchestrator)
        requires
            cycler.wf(),
        ensures
            o.wf(),
            o.cycler_view() == cycler,
            o.pending() == Seq::<Signal>::empty(),
            o.trees().len() == REGION_COUNT,
            forall|i: int|
                0 <= i < REGION_COUNT ==> o.trees()[i] == initial_tree_spec(
                    i,
                    cycler.palettes_view()[cycler.index()].background,
                ),
            forall|i: int| 0 <= i < REGION_COUNT ==> (#[trigger] o.trees()[i]).pristine(),
    {
        let backdrop = cycler.current().background;
        let mut transitions: Vec<Transition> = Vec::new();
        transitions.push(Self::entrance_tree(0, backdrop));
        transitions.push(Self::entrance_tree(100, backdrop));
        transitions.push(Self::entrance_tree(150, backdrop));
        transitions.push(Self::entrance_tree(90, backdrop));
        transitions.push(Self::entrance_tree(20, backdrop));
        transitions.push(Self::entrance_tree(0, backdrop));
        transitions.push(Self::entrance_tree(0, backdrop));
        Orchestrator { transitions, queue: SignalQueue::new(), cycler }
    }

    /// Builds one region's startup slide-in.
    fn entrance_tree(delay: u64, backdrop: Rgb) -> (t: Transition)
        ensures
            t == entrance_tree_spec(delay, backdrop),
            t.wf(),
            t.pristine(),
    {
        let slide = Primitive::new(
            SlideKind::SlideIn,
            Motion::DownToUp,
            10,
            1,
            backdrop,
            500,
            Curve::Linear,
        );
        proof {
            assert(Transition::Leaf(slide).wf());
            assert(Transition::Leaf(slide).pristine());
        }
        if delay == 0 {
            Transition::Leaf(slide)
        } else {
            Transition::ProlongStart {
                delay_ms: delay,
                held_ms: 0,
                child: Box::new(Transition::Leaf(slide)),
            }
        }
    }

    /// Builds one ordinary region's palette-switch choreography.
    fn switch_tree(delay: u64, backdrop: Rgb) -> (t: Transition)
        ensures
            t == switch_tree_spec(delay, backdrop),
            t.wf(),
            t.pristine(),
    {
        let out_slide = Primitive::new(
            SlideKind::SlideOut,
            Motion::DownToUp,
            10,
            1,
            backdrop,
            500,
            Curve::Linear,
        );
        let in_slide = Primitive::new(
            SlideKind::SlideIn,
            Motion::DownToUp,
            10,
            1,
            backdrop,
            500,
            Curve::Linear,
        );
        let hold = Transition::ProlongStart {
            delay_ms: delay,
            held_ms: 0,
            child: Box::new(Transition::Leaf(out_slide)),
        };
        proof {
            assert(Transition::Leaf(out_slide).wf() && Transition::Leaf(out_slide).pristine());
            assert(Transition::Leaf(in_slide).wf() && Transition::Leaf(in_slide).pristine());
            assert(hold.wf() && hold.pristine());
        }
        Transition::Sequence(Box::new(hold), Box::new(Transition::Leaf(in_slide)))
    }

    /// Builds the title region's choreography with the embedded signal.
    fn switch_tree_signal(backdrop: Rgb) -> (t: Transition)
        ensures
            t == switch_tree_signal_spec(backdrop),
            t.wf(),
            t.pristine(),
    {
        let out_slide = Primitive::new(
            SlideKind::SlideOut,
            Motion::DownToUp,
            10,
            1,
            backdrop,
            500,
            Curve::Linear,
        );
        let in_slide = Primitive::new(
            SlideKind::SlideIn,
            Motion::DownToUp,
            10,
            1,
            backdrop,
            500,
            Curve::Linear,
        );
        let hold = Transition::ProlongStart {
            delay_ms: 0,
            held_ms: 0,
            child: Box::new(Transition::Leaf(out_slide)),
        };
        let emit = Transition::SignalEmit { payload: Signal::PaletteSwitch, emitted: false };
        let tail = Transition::Sequence(Box::new(emit), Box::new(Transition::Leaf(in_slide)));
        proof {
            assert(emit.wf() && emit.pristine() && !emit.finished());
            assert(Transition::Leaf(out_slide).wf() && Transition::Leaf(out_slide).pristine());
            assert(Transition::Leaf(in_slide).wf() && Transition::Leaf(in_slide).pristine());
            assert(hold.wf() && hold.pristine());
            assert(tail.wf() && tail.pristine());
        }
        Transition::Sequence(Box::new(hold), Box::new(tail))
    }

    /// Replaces every region's transition with a fresh palette-switch
    /// choreography against the current palette's background: the title
    /// region carries the deferred signal, every other region a stagger
    /// drawn from the given raw values, reduced below 100 ms. In-flight
    /// motion is intentionally abandoned. The cycler and the pending queue
    /// are untouched: the palette itself changes only when a later frame
    /// drains the emitted signal.
    pub fn request_switch(&mut self, staggers: &Vec<u64>)
        requires
            old(self).wf(),
            staggers@.len() >= 6,
        ensures
            final(self).wf(),
            final(self).cycler_view() == old(self).cycler_view(),
            final(self).pending() == old(self).pending(),
            final(self).trees().len() == REGION_COUNT,
            final(self).trees()[0] == switch_tree_signal_spec(
                old(self).cycler_view().palettes_view()[old(self).cycler_view().index()].background,
            ),
            forall|i: int|
                1 <= i < REGION_COUNT ==> final(self).trees()[i] == switch_tree_spec(
                    (staggers@[i - 1] % 100) as u64,
                    old(self).cycler_view().palettes_view()[old(
                        self,
                    ).cycler_view().index()].background,
                ),
            forall|i: int| 0 <= i < REGION_COUNT ==> (#[trigger] final(self).trees()[i]).pristine(),
    {
        let backdrop = self.cycler.current().background;
        let mut transitions: Vec<Transition> = Vec::new();
        transitions.push(Self::switch_tree_signal(backdrop));
        transitions.push(Self::switch_tree(staggers[0] % 100, backdrop));
        transitions.push(Self::switch_tree(staggers[1] % 100, backdrop));
        transitions.push(Self::switch_tree(staggers[2] % 100, backdrop));
        transitions.push(Self::switch_tree(staggers[3] % 100, backdrop));
        transitions.push(Self::switch_tree(staggers[4] % 100, backdrop));
        transitions.push(Self::switch_tree(staggers[5] % 100, backdrop));
        self.transitions = transitions;
    }

    /// The currently committed palette; every widget colored this frame
    /// reads it.
    pub fn current_palette(&self) -> (p: &Palette)
        requires
            self.wf(),
        ensures
            *p == self.cycler_view().palettes_view()[self.cycler_view().index()],
    {
        self.cycler.current()
    }

    /// Pre-advances the cycler once, as startup does, so the first rendered
    /// frame never shows the construction default.
    pub fn startup_advance(&mut self)
        requires
            old(self).wf(),
        ensures
            final(self).wf(),
            final(self).trees() == old(self).trees(),
            final(self).pending() == old(self).pending(),
            final(self).cycler_view().palettes_view() == old(self).cycler_view().palettes_view(),
            final(self).cycler_view().index() == (old(self).cycler_view().index() + 1) % (old(
                self,
            ).cycler_view().palettes_view().len() as int),
    {
        self.cycler.advance();
    }

    /// One region's current visual frame, or `None` when that region's
    /// transition shows nothing (a bare signal stage).
    pub fn region_frame(&self, region: Region) -> (f: Option<VisualFrame>)
        requires
            self.wf(),
        ensures
            f == self.trees()[region.index_spec()].render_spec(),
    {
        let i = region.index();
        self.transitions[i].render()
    }

    /// Whether any region is still animating.
    pub fn any_running(&self) -> (r: bool)
        requires
            self.wf(),
        ensures
            r <==> exists|i: int| 0 <= i < REGION_COUNT && !(#[trigger] self.trees()[i]).finished(),
    {
        let mut i: usize = 0;
        while i < REGION_COUNT
            invariant
                self.wf(),
                i <= REGION_COUNT,
                forall|j: int| 0 <= j < i ==> (#[trigger] self.trees()[j]).finished(),
            decreases REGION_COUNT - i,
        {
            if !self.transitions[i].is_finished() {
                return true;
            }
            i = i + 1;
        }
        false
    }

    /// One render frame: first drains the deferred signal channel, committing
    /// at most one palette advance no matter how many signals were pending —
    /// so the newly revealed cells already use the new palette — and then
    /// advances every region's transition by the frame's elapsed time,
    /// collecting whatever signals those advances emit for the next frame.
    pub fn frame(&mut self, delta_ms: u64)
        requires
            old(self).wf(),
        ensures
            final(self).wf(),
            final(self).cycler_view().palettes_view() == old(self).cycler_view().palettes_view(),
            // the palette advances exactly once when a signal was pending, else not at all
            old(self).pending().len() > 0 ==> final(self).cycler_view().index() == (old(
                self,
            ).cycler_view().index() + 1) % (old(self).cycler_view().palettes_view().len() as int),
            old(self).pending().len() == 0 ==> final(self).cycler_view() == old(self).cycler_view(),
            // every region advances by the frame delta, by the tick law
            final(self).trees().len() == REGION_COUNT,
            forall|i: int|
                0 <= i < REGION_COUNT ==> (#[trigger] final(self).trees()[i]).same_shape(
                    old(self).trees()[i],
                ),
            forall|i: int|
                0 <= i < REGION_COUNT ==> (#[trigger] final(self).trees()[i]).total() == old(
                    self,
                ).trees()[i].total(),
            forall|i: int|
                0 <= i < REGION_COUNT ==> (#[trigger] final(self).trees()[i]).consumed()
                    == vstd::math::min(
                    old(self).trees()[i].consumed() + delta_ms,
                    old(self).trees()[i].total(),
                ),
            forall|i: int|
                0 <= i < REGION_COUNT ==> ((#[trigger] final(self).trees()[i]).finished() <==> old(
                    self,
                ).trees()[i].consumed() + delta_ms >= old(self).trees()[i].total()),
            forall|i: int|
                0 <= i < REGION_COUNT ==> (#[trigger] old(self).trees()[i]).emitted_signals().is_prefix_of(
                    final(self).trees()[i].emitted_signals(),
                ),
            // the queue holds exactly the signals this frame's advances fired
            final(self).pending() == all_new_emissions(
                old(self).trees(),
                final(self).trees(),
                REGION_COUNT as int,
            ),
    {
        // Drain strictly before any color is computed: commit at most one
        // palette advance per frame, coalescing every pending signal.
        let had_signal = !self.queue.is_empty();
        self.queue = SignalQueue::new();
        if had_signal {
            self.cycler.advance();
        }
        let ghost committed = self.cycler;
        let ghost before = self.transitions@;
        let mut i: usize = 0;
        while i < REGION_COUNT
            invariant
                i <= REGION_COUNT,
                self.transitions@.len() == REGION_COUNT,
                self.cycler == committed,
                committed.wf(),
                forall|j: int| i <= j < REGION_COUNT ==> self.transitions@[j] == before[j],
                forall|j: int| 0 <= j < REGION_COUNT ==> (#[trigger] before[j]).wf(),
                forall|j: int| 0 <= j < i ==> (#[trigger] self.transitions@[j]).wf(),
                forall|j: int|
                    0 <= j < i ==> (#[trigger] self.transitions@[j]).same_shape(before[j]),
                forall|j: int|
                    0 <= j < i ==> (#[trigger] self.transitions@[j]).total() == before[j].total(),
                forall|j: int|
                    0 <= j < i ==> (#[trigger] self.transitions@[j]).consumed() == vstd::math::min(
                        before[j].consumed() + delta_ms,
                        before[j].total(),
                    ),
                forall|j: int|
                    0 <= j < i ==> ((#[trigger] self.transitions@[j]).finished() <==> before[j].consumed()
                        + delta_ms >= before[j].total()),
                forall|j: int|
                    0 <= j < i ==> (#[trigger] before[j]).emitted_signals().is_prefix_of(
                        self.transitions@[j].emitted_signals(),
                    ),
                self.queue@ == all_new_emissions(before, self.transitions@, i as int),
            decreases REGION_COUNT - i,
        {
            let ghost trees_pre = self.transitions@;
            let ghost queue_pre = self.queue@;
            let mut t: Transition = Transition::SignalEmit {
                payload: Signal::PaletteSwitch,
                emitted: true,
            };
            self.transitions.set_and_swap(i, &mut t);
            proof {
                assert(trees_pre[i as int] == before[i as int]);
                assert(before[i as int].wf());
                assert(t == trees_pre[i as int]);
            }
            let (t2, _leftover) = t.tick(delta_ms, &mut self.queue);
            self.transitions.set(i, t2);
            proof {
                lemma_all_new_emissions_agree(before, trees_pre, self.transitions@, i as int);
                assert(self.queue@ =~= all_new_emissions(
                    before,
                    self.transitions@,
                    i as int + 1,
                ));
            }
            i = i + 1;
        }
    }
}

} // verus!
