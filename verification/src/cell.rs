//! One character cell with its styling.

use vstd::prelude::*;

verus! {

/// How a colour is specified.
#[derive(Clone, Copy, Debug, PartialEq, Eq, Structural)]
pub enum ColorKind {
    /// The terminal's default colour.
    Default,
    /// A palette index, held in `r`.
    Indexed,
    /// A 24-bit colour.
    Rgb,
}

/// A foreground or background colour.
#[derive(Clone, Copy, Debug, PartialEq, Eq, Structural)]
pub struct Color {
    pub kind: ColorKind,
    pub r: u8,
    pub g: u8,
    pub b: u8,
}

impl Color {
    /// The terminal's default colour.
    pub fn default_color() -> (c: Color)
        ensures
            c == Color::spec_default_color(),
    {
        Color { kind: ColorKind::Default, r: 0, g: 0, b: 0 }
    }

    pub open spec fn spec_default_color() -> Color {
        Color { kind: ColorKind::Default, r: 0, g: 0, b: 0 }
    }

    /// A palette colour.
    pub fn indexed(index: u8) -> (c: Color)
        ensures
            c == (Color { kind: ColorKind::Indexed, r: index, g: 0, b: 0 }),
    {
        Color { kind: ColorKind::Indexed, r: index, g: 0, b: 0 }
    }

    /// A 24-bit colour.
    pub fn rgb(r: u8, g: u8, b: u8) -> (c: Color)
        ensures
            c == (Color { kind: ColorKind::Rgb, r, g, b }),
    {
        Color { kind: ColorKind::Rgb, r, g, b }
    }
}

/// Text attributes as a bit set.
#[derive(Clone, Copy, Debug, PartialEq, Eq, Structural)]
pub struct CellFlags {
    pub bits: u8,
}

impl CellFlags {
    pub const BOLD: u8 = 1;
    pub const DIM: u8 = 2;
    pub const ITALIC: u8 = 4;
    pub const UNDERLINE: u8 = 8;
    pub const BLINK: u8 = 16;
    pub const INVERSE: u8 = 32;
    pub const HIDDEN: u8 = 64;
    pub const STRIKETHROUGH: u8 = 128;

    /// No attributes.
    pub fn empty() -> (f: CellFlags)
        ensures
            f.bits == 0,
    {
        CellFlags { bits: 0 }
    }

    /// The attribute set with exactly the given bits.
    pub fn from_bits(bits: u8) -> (f: CellFlags)
        ensures
            f.bits == bits,
    {
        CellFlags { bits }
    }

    /// Whether every bit of `flag` is set.
    pub open spec fn has(self, flag: u8) -> bool {
        self.bits & flag == flag
    }

    /// Whether every bit of `flag` is set.
    pub fn contains(&self, flag: u8) -> (b: bool)
        ensures
            b == self.has(flag),
    {
        self.bits & flag == flag
    }

    /// Set every bit of `flag`.
    pub fn insert(&mut self, flag: u8)
        ensures
            final(self).bits == old(self).bits | flag,
    {
        self.bits = self.bits | flag;
    }

    /// Whether no attribute is set.
    pub fn is_empty(&self) -> (b: bool)
        ensures
            b == (self.bits == 0),
    {
        self.bits == 0
    }
}

/// Identifier of an interned hyperlink; never zero.
#[derive(Clone, Copy, Debug, PartialEq, Eq, Structural)]
pub struct HyperlinkId {
    id: u32,
}

impl HyperlinkId {
    /// The numeric value of the id.
    pub closed spec fn value(self) -> u32 {
        self.id
    }

    /// The id with the given value, or `None` for zero.
    pub fn new(id: u32) -> (r: Option<HyperlinkId>)
        ensures
            id == 0 ==> r.is_none(),
            id != 0 ==> r.is_some() && r.unwrap().value() == id,
    {
        if id == 0 {
            None
        } else {
            Some(HyperlinkId { id })
        }
    }

    /// The id with a value known not to be zero.
    pub(crate) fn from_nonzero(id: u32) -> (r: HyperlinkId)
        requires
            id != 0,
        ensures
            r.value() == id,
    {
        HyperlinkId { id }
    }

    /// The numeric value of the id.
    pub fn get(&self) -> (v: u32)
        ensures
            v == self.value(),
            v != 0,
    {
        proof {
            use_type_invariant(self);
        }
        self.id
    }

    #[verifier::type_invariant]
    spec fn nonzero(self) -> bool {
        self.id != 0
    }
}

/// One character on screen with its colours and attributes.
#[derive(Clone, Copy, Debug, PartialEq, Eq, Structural)]
pub struct Cell {
    /// The character shown.
    pub c: char,
    /// Foreground colour.
    pub fg: Color,
    /// Background colour.
    pub bg: Color,
    /// Text attributes.
    pub flags: CellFlags,
    /// The hyperlink this cell belongs to, if any.
    pub hyperlink: Option<HyperlinkId>,
}

/// The blank cell: a space in default colours with no attributes.
pub open spec fn blank_cell() -> Cell {
    Cell {
        c: ' ',
        fg: Color::spec_default_color(),
        bg: Color::spec_default_color(),
        flags: CellFlags { bits: 0 },
        hyperlink: None,
    }
}

impl Cell {
    /// A cell showing `c` in default colours.
    pub fn new(c: char) -> (cell: Cell)
        ensures
            cell == (Cell { c, ..blank_cell() }),
    {
        Cell {
            c,
            fg: Color::default_color(),
            bg: Color::default_color(),
            flags: CellFlags::empty(),
            hyperlink: None,
        }
    }

    /// A cell with explicit colours and attributes.
    pub fn styled(c: char, fg: Color, bg: Color, flags: CellFlags) -> (cell: Cell)
        ensures
            cell == (Cell { c, fg, bg, flags, hyperlink: None }),
    {
        Cell { c, fg, bg, flags, hyperlink: None }
    }

    /// The blank cell.
    pub fn blank() -> (cell: Cell)
        ensures
            cell == blank_cell(),
    {
        Cell::new(' ')
    }

    /// Reset this cell to the blank cell.
    pub fn reset(&mut self)
        ensures
            *final(self) == blank_cell(),
    {
        *self = Cell::blank();
    }
}

impl Default for Cell {
    fn default() -> (cell: Cell)
        ensures
            cell == blank_cell(),
    {
        Cell::blank()
    }
}

} // verus!
