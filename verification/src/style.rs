//! The visual attributes of slices: a bounded palette of colours and a cycle
//! of fill glyphs. The two advance independently of each other.

use vstd::prelude::*;

verus! {

/// A colour that a slice can be drawn in.
#[derive(Clone, Copy, Debug, PartialEq, Eq, Structural)]
pub enum Color {
    Red,
    Green,
    Purple,
    Yellow,
    Blue,
    Cyan,
    White,
}

/// The number of colours in the palette.
pub const PALETTE_SIZE: usize = 6;

/// The number of glyphs in the cycle.
pub const GLYPH_COUNT: usize = 5;

/// The palette, in the order in which its colours are handed out.
pub open spec fn palette() -> Seq<Color> {
    seq![Color::Red, Color::Green, Color::Purple, Color::Yellow, Color::Blue, Color::Cyan]
}

/// The fill glyphs, in the order in which the cycle runs through them.
pub open spec fn glyph_cycle() -> Seq<char> {
    seq!['*', '.', ',', '\u{2022}', '\u{25aa}']
}

/// The glyph that the cycle yields at its `index`-th step, counted from zero.
pub open spec fn glyph_at(index: int) -> char {
    glyph_cycle()[index % (GLYPH_COUNT as int)]
}

/// The colour of the palette at `index`, or `None` once the palette is
/// exhausted: the palette never wraps around.
pub fn palette_color(index: usize) -> (color: Option<Color>)
    ensures
        index < PALETTE_SIZE ==> color == Some(palette()[index as int]),
        index >= PALETTE_SIZE ==> color.is_none(),
{
    if index == 0 {
        Some(Color::Red)
    } else if index == 1 {
        Some(Color::Green)
    } else if index == 2 {
        Some(Color::Purple)
    } else if index == 3 {
        Some(Color::Yellow)
    } else if index == 4 {
        Some(Color::Blue)
    } else if index == 5 {
        Some(Color::Cyan)
    } else {
        None
    }
}

/// The glyph at step `index` of the cycle, which wraps around after
/// `GLYPH_COUNT` steps.
pub fn glyph(index: usize) -> (g: char)
    ensures
        g == glyph_at(index as int),
{
    let k: usize = index % GLYPH_COUNT;
    if k == 0 {
        '*'
    } else if k == 1 {
        '.'
    } else if k == 2 {
        ','
    } else if k == 3 {
        '\u{2022}'
    } else {
        '\u{25aa}'
    }
}

/// A cursor into the glyph cycle. It hands out one glyph per call and starts
/// over after the last one.
pub struct GlyphCycle {
    next: usize,
}

impl GlyphCycle {
    #[verifier::type_invariant]
    spec fn in_cycle(self) -> bool {
        self.next < GLYPH_COUNT
    }

    /// The position in the cycle of the glyph that comes next.
    pub closed spec fn position(self) -> nat {
        self.next as nat
    }

    /// A cursor at the start of the cycle.
    pub fn new() -> (cycle: Self)
        ensures
            cycle.position() == 0,
    {
        GlyphCycle { next: 0 }
    }

    /// Hands out the glyph under the cursor and moves the cursor on by one.
    pub fn next_glyph(&mut self) -> (g: char)
        ensures
            g == glyph_at(old(self).position() as int),
            final(self).position() == (old(self).position() + 1) % (GLYPH_COUNT as nat),
    {
        proof {
            use_type_invariant(&*self);
        }
        let g = glyph(self.next);
        self.next = (self.next + 1) % GLYPH_COUNT;
        g
    }
}

} // verus!
