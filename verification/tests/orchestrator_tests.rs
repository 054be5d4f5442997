use cellshow::orchestrator::{Orchestrator, Region};
use cellshow::palette::{
    campfire_palette, smokey_yellow_palette, stag_palette, starter_palette, PaletteCycler,
};

fn fresh() -> Orchestrator {
    let cycler = PaletteCycler::new(vec![
        starter_palette(),
        smokey_yellow_palette(),
        campfire_palette(),
        stag_palette(),
    ]);
    let mut o = Orchestrator::new(cycler);
    o.startup_advance();
    o
}

#[test]
fn startup_shows_the_second_palette_first() {
    let o = fresh();
    assert_eq!(o.current_palette().name, "Smokey Yellow");
}

#[test]
fn entrance_slides_every_region_in() {
    let mut o = fresh();
    // before any frame the title rests fully hidden
    let f = o.region_frame(Region::Title).unwrap();
    assert_eq!(f.offset_permille, 1000);
    o.frame(500);
    // the unstaggered regions are in place, the staggered ones still moving
    assert_eq!(o.region_frame(Region::Title).unwrap().offset_permille, 0);
    assert_eq!(o.region_frame(Region::Help).unwrap().offset_permille, 0);
    assert!(o.region_frame(Region::Links).unwrap().offset_permille > 0);
    assert!(o.any_running());
    o.frame(150);
    assert!(!o.any_running());
}

#[test]
fn palette_commits_exactly_once_per_request() {
    let mut o = fresh();
    o.frame(650);
    let before = o.current_palette().name.clone();

    o.request_switch(&vec![17, 23, 31, 47, 59, 71]);
    // the old colors slide out; the palette must not change mid-slide-out
    o.frame(250);
    assert_eq!(o.current_palette().name, before);
    o.frame(250);
    // the title's slide-out just completed and its signal is now queued,
    // but the queue is only drained at the start of the next frame
    assert_eq!(o.current_palette().name, before);
    o.frame(0);
    let after = o.current_palette().name.clone();
    assert_ne!(after, before);
    assert_eq!(after, "Campfire");
    // draining again within further frames never advances a second time
    o.frame(0);
    o.frame(0);
    assert_eq!(o.current_palette().name, after);
    // let every staggered region finish its reveal
    o.frame(1200);
    assert!(!o.any_running());
    assert_eq!(o.current_palette().name, after);
}

#[test]
fn each_request_commits_its_own_switch() {
    let mut o = fresh();
    o.frame(650);
    o.request_switch(&vec![1, 2, 3, 4, 5, 6]);
    o.frame(500);
    o.frame(1200);
    assert_eq!(o.current_palette().name, "Campfire");
    o.request_switch(&vec![6, 5, 4, 3, 2, 1]);
    o.frame(500);
    o.frame(1200);
    assert_eq!(o.current_palette().name, "Stag");
}

#[test]
fn switch_reveal_begins_hidden_in_the_new_palette() {
    let mut o = fresh();
    o.frame(650);
    o.request_switch(&vec![0, 0, 0, 0, 0, 0]);
    o.frame(500);
    // slide-out done: the title now shows the reveal at its hidden rest
    assert_eq!(o.region_frame(Region::Title).unwrap().offset_permille, 1000);
    o.frame(250);
    // the palette committed at the frame's start, the reveal is halfway in
    assert_eq!(o.current_palette().name, "Campfire");
    assert_eq!(o.region_frame(Region::Title).unwrap().offset_permille, 500);
}

#[test]
fn replacing_a_running_transition_discards_it() {
    let mut o = fresh();
    o.frame(100);
    // mid-entrance, a switch request rebuilds every region from scratch
    o.request_switch(&vec![5, 6, 7, 8, 9, 10]);
    // the title starts over with a slide-out that has not moved yet
    assert_eq!(o.region_frame(Region::Title).unwrap().offset_permille, 0);
    assert!(o.any_running());
}
