use cellshow::palette::{
    campfire_palette, smokey_yellow_palette, stag_palette, starter_palette, Palette,
    PaletteCycler, Rgb,
};

fn default_set() -> Vec<Palette> {
    vec![
        starter_palette(),
        smokey_yellow_palette(),
        campfire_palette(),
        stag_palette(),
    ]
}

#[test]
fn cycler_round_trip_four() {
    let mut c = PaletteCycler::new(default_set());
    let origin = c.current().name.clone();
    for _ in 0..4 {
        c.advance();
    }
    assert_eq!(c.current().name, origin);
}

#[test]
fn cycler_round_trip_three() {
    let mut c = PaletteCycler::new(vec![
        smokey_yellow_palette(),
        campfire_palette(),
        stag_palette(),
    ]);
    c.advance();
    let origin = c.current().name.clone();
    for _ in 0..3 {
        c.advance();
    }
    assert_eq!(c.current().name, origin);
}

#[test]
fn startup_advance_selects_second_palette() {
    let mut c = PaletteCycler::new(vec![
        smokey_yellow_palette(),
        campfire_palette(),
        stag_palette(),
    ]);
    c.advance();
    assert_eq!(c.current().name, "Campfire");
}

#[test]
fn cycler_order_is_fixed_and_cyclical() {
    let mut c = PaletteCycler::new(default_set());
    assert_eq!(c.current().name, "Starter");
    c.advance();
    assert_eq!(c.current().name, "Smokey Yellow");
    c.advance();
    assert_eq!(c.current().name, "Campfire");
    c.advance();
    assert_eq!(c.current().name, "Stag");
    c.advance();
    assert_eq!(c.current().name, "Starter");
}

#[test]
fn palettes_hold_their_six_colors() {
    let y = smokey_yellow_palette();
    assert_eq!(y.background, Rgb::new(0x2E, 0x28, 0x1D));
    assert_eq!(y.foreground, Rgb::new(0xDC, 0xD0, 0xB4));
    assert_eq!(y.background_alt, Rgb::new(0x9A, 0x92, 0x7D));
    assert_eq!(y.foreground_alt, Rgb::new(0xEC, 0xC5, 0x70));
    assert_eq!(y.accent_a, Rgb::new(0xC9, 0xB0, 0x77));
    assert_eq!(y.accent_b, Rgb::new(0xAA, 0x98, 0x71));
    let s = stag_palette();
    assert_eq!(s.background, Rgb::new(0x0D, 0x15, 0x28));
    assert_eq!(s.accent_b, Rgb::new(0x7E, 0x45, 0x76));
}
