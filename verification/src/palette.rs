//! Named color palettes and a round-robin cycler over a closed set of them.

use vstd::prelude::*;

verus! {

/// One color, eight bits per channel.
#[derive(Clone, Copy, PartialEq, Eq, Structural, Debug)]
pub struct Rgb {
    pub r: u8,
    pub g: u8,
    pub b: u8,
}

impl Rgb {
    /// Builds a color from its three channel values.
    pub fn new(r: u8, g: u8, b: u8) -> (c: Rgb)
        ensures
            c == (Rgb { r, g, b }),
    {
        Rgb { r, g, b }
    }
}

/// An immutable record of the six colors a theme assigns, plus a display name.
/// Every field is always assigned; a palette is never partially initialized.
pub struct Palette {
    pub background: Rgb,
    pub foreground: Rgb,
    pub background_alt: Rgb,
    pub foreground_alt: Rgb,
    pub accent_a: Rgb,
    pub accent_b: Rgb,
    pub name: String,
}

/// The plain theme a cycler starts on before the first switch.
pub fn starter_palette() -> (p: Palette)
    ensures
        p.background == (Rgb { r: 0x00, g: 0x00, b: 0x00 }),
        p.foreground == (Rgb { r: 0xFF, g: 0xFF, b: 0xFF }),
        p.background_alt == (Rgb { r: 0x55, g: 0x55, b: 0x55 }),
        p.foreground_alt == (Rgb { r: 0x5C, g: 0x5C, b: 0xFF }),
        p.accent_a == (Rgb { r: 0x00, g: 0x80, b: 0x00 }),
        p.accent_b == (Rgb { r: 0x00, g: 0xFF, b: 0xFF }),
        p.name@ == "Starter"@,
{
    Palette {
        background: Rgb { r: 0x00, g: 0x00, b: 0x00 },
        foreground: Rgb { r: 0xFF, g: 0xFF, b: 0xFF },
        background_alt: Rgb { r: 0x55, g: 0x55, b: 0x55 },
        foreground_alt: Rgb { r: 0x5C, g: 0x5C, b: 0xFF },
        accent_a: Rgb { r: 0x00, g: 0x80, b: 0x00 },
        accent_b: Rgb { r: 0x00, g: 0xFF, b: 0xFF },
        name: "Starter".to_owned(),
    }
}

/// A warm parchment-and-amber theme.
pub fn smokey_yellow_palette() -> (p: Palette)
    ensures
        p.background == (Rgb { r: 0x2E, g: 0x28, b: 0x1D }),
        p.foreground == (Rgb { r: 0xDC, g: 0xD0, b: 0xB4 }),
        p.background_alt == (Rgb { r: 0x9A, g: 0x92, b: 0x7D }),
        p.foreground_alt == (Rgb { r: 0xEC, g: 0xC5, b: 0x70 }),
        p.accent_a == (Rgb { r: 0xC9, g: 0xB0, b: 0x77 }),
        p.accent_b == (Rgb { r: 0xAA, g: 0x98, b: 0x71 }),
        p.name@ == "Smokey Yellow"@,
{
    Palette {
        background: Rgb { r: 0x2E, g: 0x28, b: 0x1D },
        foreground: Rgb { r: 0xDC, g: 0xD0, b: 0xB4 },
        background_alt: Rgb { r: 0x9A, g: 0x92, b: 0x7D },
        foreground_alt: Rgb { r: 0xEC, g: 0xC5, b: 0x70 },
        accent_a: Rgb { r: 0xC9, g: 0xB0, b: 0x77 },
        accent_b: Rgb { r: 0xAA, g: 0x98, b: 0x71 },
        name: "Smokey Yellow".to_owned(),
    }
}

/// A cool night-blue theme with ember accents.
pub fn campfire_palette() -> (p: Palette)
    ensures
        p.background == (Rgb { r: 0x22, g: 0x22, b: 0x2E }),
        p.foreground == (Rgb { r: 0x99, g: 0xBC, b: 0xC1 }),
        p.background_alt == (Rgb { r: 0x2A, g: 0x4C, b: 0x66 }),
        p.foreground_alt == (Rgb { r: 0xE6, g: 0x94, b: 0x5B }),
        p.accent_a == (Rgb { r: 0x91, g: 0x2D, b: 0x2B }),
        p.accent_b == (Rgb { r: 0x5C, g: 0x49, b: 0x54 }),
        p.name@ == "Campfire"@,
{
    Palette {
        background: Rgb { r: 0x22, g: 0x22, b: 0x2E },
        foreground: Rgb { r: 0x99, g: 0xBC, b: 0xC1 },
        background_alt: Rgb { r: 0x2A, g: 0x4C, b: 0x66 },
        foreground_alt: Rgb { r: 0xE6, g: 0x94, b: 0x5B },
        accent_a: Rgb { r: 0x91, g: 0x2D, b: 0x2B },
        accent_b: Rgb { r: 0x5C, g: 0x49, b: 0x54 },
        name: "Campfire".to_owned(),
    }
}

/// A deep navy theme with rose accents.
pub fn stag_palette() -> (p: Palette)
    ensures
        p.background == (Rgb { r: 0x0D, g: 0x15, b: 0x28 }),
        p.foreground == (Rgb { r: 0xDE, g: 0x92, b: 0xA8 }),
        p.background_alt == (Rgb { r: 0x2A, g: 0x44, b: 0x61 }),
        p.foreground_alt == (Rgb { r: 0xCF, g: 0x39, b: 0x61 }),
        p.accent_a == (Rgb { r: 0x8D, g: 0x39, b: 0x50 }),
        p.accent_b == (Rgb { r: 0x7E, g: 0x45, b: 0x76 }),
        p.name@ == "Stag"@,
{
    Palette {
        background: Rgb { r: 0x0D, g: 0x15, b: 0x28 },
        foreground: Rgb { r: 0xDE, g: 0x92, b: 0xA8 },
        background_alt: Rgb { r: 0x2A, g: 0x44, b: 0x61 },
        foreground_alt: Rgb { r: 0xCF, g: 0x39, b: 0x61 },
        accent_a: Rgb { r: 0x8D, g: 0x39, b: 0x50 },
        accent_b: Rgb { r: 0x7E, g: 0x45, b: 0x76 },
        name: "Stag".to_owned(),
    }
}

/// Owns a fixed, ordered, non-empty set of palettes and a current index, and
/// advances through them in round-robin order on demand.
pub struct PaletteCycler {
    palettes: Vec<Palette>,
    current: usize,
}

/// The index reached from `start` after `steps` single advances through a
/// cycle of length `len`.
pub open spec fn advanced_index(start: int, steps: nat, len: int) -> int
    decreases steps,
{
    if steps == 0 {
        start
    } else {
        (advanced_index(start, (steps - 1) as nat, len) + 1) % len
    }
}

impl PaletteCycler {
    /// The cycler always holds at least one palette and points inside it.
    pub closed spec fn wf(&self) -> bool {
        self.palettes@.len() > 0 && (self.current as int) < self.palettes@.len()
    }

    /// The ordered palettes the cycler was built with.
    pub closed spec fn palettes_view(&self) -> Seq<Palette> {
        self.palettes@
    }

    /// The index of the currently selected palette.
    pub closed spec fn index(&self) -> int {
        self.current as int
    }

    /// Builds a cycler over the given palettes with the first one selected.
    pub fn new(palettes: Vec<Palette>) -> (c: PaletteCycler)
        requires
            palettes@.len() > 0,
        ensures
            c.wf(),
            c.palettes_view() == palettes@,
            c.index() == 0,
    {
        PaletteCycler { palettes, current: 0 }
    }

    /// The currently selected palette; always defined.
    pub fn current(&self) -> (p: &Palette)
        requires
            self.wf(),
        ensures
            *p == self.palettes_view()[self.index()],
    {
        &self.palettes[self.current]
    }

    /// Number of palettes in the cycle.
    pub fn len(&self) -> (n: usize)
        ensures
            n as int == self.palettes_view().len(),
    {
        self.palettes.len()
    }

    /// Moves the selection to the next palette, wrapping around after the
    /// last one. Deterministic round-robin; touches nothing but the index.
    pub fn advance(&mut self)
        requires
            old(self).wf(),
        ensures
            final(self).wf(),
            final(self).palettes_view() == old(self).palettes_view(),
            final(self).index() == (old(self).index() + 1) % (old(self).palettes_view().len() as int),
    {
        let len = self.palettes.len();
        if self.current + 1 < len {
            self.current = self.current + 1;
        } else {
            self.current = 0;
        }
        proof {
            let l = self.palettes@.len() as int;
            if old(self).current as int + 1 < l {
                assert((old(self).index() + 1) % l == old(self).index() + 1) by {
                    vstd::arithmetic::div_mod::lemma_small_mod((old(self).current + 1) as nat, l as nat);
                }
            } else {
                assert((old(self).index() + 1) % l == l % l);
                assert(l % l == 0) by {
                    vstd::arithmetic::div_mod::lemma_mod_self_0(l);
                }
            }
        }
    }
}

/// Round-trip law: starting anywhere in a cycle of length `len`, advancing
/// `len` times returns to the starting index.
pub proof fn lemma_cycle_round_trip(start: int, len: int)
    requires
        0 <= start < len,
    ensures
        advanced_index(start, len as nat, len) == start,
{
    lemma_advanced_index_mod(start, len as nat, len);
    assert((start + len) % len == start) by {
        vstd::arithmetic::div_mod::lemma_mod_add_multiples_vanish(start, len);
        vstd::arithmetic::div_mod::lemma_small_mod(start as nat, len as nat);
    }
}

/// Advancing `steps` times from `start` lands on `(start + steps) % len`.
pub proof fn lemma_advanced_index_mod(start: int, steps: nat, len: int)
    requires
        0 <= start < len,
    ensures
        advanced_index(start, steps, len) == (start + steps) % len,
    decreases steps,
{
    if steps == 0 {
        vstd::arithmetic::div_mod::lemma_small_mod(start as nat, len as nat);
    } else {
        lemma_advanced_index_mod(start, (steps - 1) as nat, len);
        assert(((start + steps - 1) % len + 1) % len == (start + steps) % len) by {
            vstd::arithmetic::div_mod::lemma_add_mod_noop_right(1, start + steps - 1, len);
        }
    }
}

} // verus!
