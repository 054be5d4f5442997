use cellshow::palette::Rgb;
use cellshow::signal::{Signal, SignalQueue};
use cellshow::transition::{Curve, Motion, Primitive, SlideKind, Transition};

fn slide(kind: SlideKind, duration_ms: u64, curve: Curve) -> Primitive {
    Primitive::new(
        kind,
        Motion::DownToUp,
        10,
        1,
        Rgb::new(0x10, 0x10, 0x10),
        duration_ms,
        curve,
    )
}

fn two_stage(d1: u64, d2: u64) -> Transition {
    Transition::Sequence(
        Box::new(Transition::Leaf(slide(SlideKind::SlideOut, d1, Curve::Linear))),
        Box::new(Transition::Leaf(slide(SlideKind::SlideIn, d2, Curve::Linear))),
    )
}

fn title_choreography() -> Transition {
    Transition::Sequence(
        Box::new(Transition::ProlongStart {
            delay_ms: 0,
            held_ms: 0,
            child: Box::new(Transition::Leaf(slide(SlideKind::SlideOut, 500, Curve::Linear))),
        }),
        Box::new(Transition::Sequence(
            Box::new(Transition::SignalEmit {
                payload: Signal::PaletteSwitch,
                emitted: false,
            }),
            Box::new(Transition::Leaf(slide(SlideKind::SlideIn, 500, Curve::Linear))),
        )),
    )
}

#[test]
fn tick_is_monotonic_and_reaches_finished() {
    let mut q = SignalQueue::new();
    let mut t = Transition::Leaf(slide(SlideKind::SlideIn, 500, Curve::Linear));
    let splits: [u64; 4] = [100, 150, 150, 100];
    for (k, d) in splits.iter().enumerate() {
        assert!(!t.is_finished(), "finished too early at step {k}");
        let (t2, leftover) = t.tick(*d, &mut q);
        t = t2;
        assert_eq!(leftover, 0);
    }
    assert!(t.is_finished());
}

#[test]
fn ticks_after_finished_are_no_ops() {
    let mut q = SignalQueue::new();
    let t = Transition::Leaf(slide(SlideKind::SlideIn, 300, Curve::Linear));
    let (t, _) = t.tick(300, &mut q);
    assert!(t.is_finished());
    let resting = t.render().unwrap();
    let (t, leftover) = t.tick(12345, &mut q);
    assert!(t.is_finished());
    assert_eq!(leftover, 12345);
    let still = t.render().unwrap();
    assert_eq!(still, resting);
}

#[test]
fn two_stage_finishes_under_any_partition() {
    for splits in [
        vec![500u64],
        vec![250, 250],
        vec![100, 400],
        vec![300, 200],
        vec![1; 500],
    ] {
        let mut q = SignalQueue::new();
        let mut t = two_stage(300, 200);
        for d in &splits {
            let (t2, _) = t.tick(*d, &mut q);
            t = t2;
        }
        assert!(t.is_finished(), "splits {splits:?} should finish");
    }
}

#[test]
fn two_stage_never_finishes_below_total() {
    let mut q = SignalQueue::new();
    let mut t = two_stage(300, 200);
    let (t2, _) = t.tick(499, &mut q);
    t = t2;
    assert!(!t.is_finished());
    let (t2, _) = t.tick(1, &mut q);
    t = t2;
    assert!(t.is_finished());
}

#[test]
fn prolonged_sequence_finishes_only_after_all_stages() {
    // hold 100 ms, slide out 500 ms, then slide in 500 ms
    let mut q = SignalQueue::new();
    let t = Transition::Sequence(
        Box::new(Transition::ProlongStart {
            delay_ms: 100,
            held_ms: 0,
            child: Box::new(Transition::Leaf(slide(SlideKind::SlideOut, 500, Curve::Linear))),
        }),
        Box::new(Transition::Leaf(slide(SlideKind::SlideIn, 500, Curve::Linear))),
    );
    let (t, _) = t.tick(100, &mut q);
    assert!(!t.is_finished(), "hold just ended, slide-out begins at local t=0");
    let (t, _) = t.tick(500, &mut q);
    assert!(!t.is_finished(), "slide-out just finished, slide-in not yet");
    let (t, _) = t.tick(500, &mut q);
    assert!(t.is_finished(), "all three stages have run their course");
}

#[test]
fn deferred_signal_fires_exactly_once_and_before_reveal() {
    let mut q = SignalQueue::new();
    let t = title_choreography();
    let (t, _) = t.tick(499, &mut q);
    assert!(q.is_empty(), "signal must wait for the slide-out to complete");
    let (t, _) = t.tick(1, &mut q);
    // the slide-out has just fully hidden the screen: the signal is out and
    // the reveal has not yet shown a frame beyond its hidden resting state
    assert_eq!(q.try_recv(), Some(Signal::PaletteSwitch));
    assert_eq!(q.try_recv(), None);
    let frame = t.render().unwrap();
    assert_eq!(frame.offset_permille, 1000, "reveal still fully hidden");
    let (t, _) = t.tick(500, &mut q);
    assert!(t.is_finished());
    assert!(q.is_empty(), "a signal fires only once per traversal");
}

#[test]
fn slide_frames_interpolate_linearly() {
    let mut q = SignalQueue::new();
    let t = Transition::Leaf(slide(SlideKind::SlideIn, 500, Curve::Linear));
    assert_eq!(t.render().unwrap().offset_permille, 1000);
    let (t, _) = t.tick(250, &mut q);
    assert_eq!(t.render().unwrap().offset_permille, 500);
    let (t, _) = t.tick(250, &mut q);
    assert_eq!(t.render().unwrap().offset_permille, 0);

    let u = Transition::Leaf(slide(SlideKind::SlideOut, 500, Curve::Linear));
    assert_eq!(u.render().unwrap().offset_permille, 0);
    let (u, _) = u.tick(500, &mut q);
    assert_eq!(u.render().unwrap().offset_permille, 1000);
}

#[test]
fn quadratic_curve_eases_in() {
    let mut q = SignalQueue::new();
    let t = Transition::Leaf(slide(SlideKind::SlideIn, 500, Curve::QuadIn));
    let (t, _) = t.tick(250, &mut q);
    // linear progress 500 permille, eased to 250: the slide lags early on
    assert_eq!(t.render().unwrap().offset_permille, 750);
}

#[test]
fn signal_queue_is_ordered_and_non_blocking() {
    let mut q = SignalQueue::new();
    assert!(q.is_empty());
    assert_eq!(q.try_recv(), None);
    q.send(Signal::PaletteSwitch);
    q.send(Signal::PaletteSwitch);
    assert!(!q.is_empty());
    assert_eq!(q.try_recv(), Some(Signal::PaletteSwitch));
    assert_eq!(q.try_recv(), Some(Signal::PaletteSwitch));
    assert_eq!(q.try_recv(), None);
}
