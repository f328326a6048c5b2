//! A hex-dump engine: partitions a byte stream into fixed-width rows,
//! formats each byte in a numeric base, classifies bytes for display,
//! and aligns partial final rows.

pub mod classify;
pub mod dump;
pub mod numfmt;
pub mod render;
pub mod row;
mod text;

use vstd::prelude::*;

verus! {

/// The numeric base a dump is rendered in.
#[derive(Clone, Copy, PartialEq, Eq, Structural, Debug)]
pub enum Base {
    Hex,
    Octal,
}

/// The radix that numbers are written in for a base.
pub open spec fn spec_radix(base: Base) -> nat {
    match base {
        Base::Hex => 16,
        Base::Octal => 8,
    }
}

/// Bytes per row: 16 in hexadecimal mode, 8 in octal mode.
pub open spec fn spec_row_width(base: Base) -> nat {
    match base {
        Base::Hex => 16,
        Base::Octal => 8,
    }
}

/// Digits per byte cell: 2 in hexadecimal mode, 4 in octal mode.
pub open spec fn spec_byte_width(base: Base) -> nat {
    match base {
        Base::Hex => 2,
        Base::Octal => 4,
    }
}

impl Base {
    /// The radix that numbers are written in.
    pub fn radix(self) -> (r: u64)
        ensures
            r == spec_radix(self),
    {
        match self {
            Base::Hex => 16,
            Base::Octal => 8,
        }
    }

    /// Bytes per row.
    pub fn row_width(self) -> (w: usize)
        ensures
            w == spec_row_width(self),
    {
        match self {
            Base::Hex => 16,
            Base::Octal => 8,
        }
    }

    /// Digits per byte cell.
    pub fn byte_width(self) -> (w: usize)
        ensures
            w == spec_byte_width(self),
    {
        match self {
            Base::Hex => 2,
            Base::Octal => 4,
        }
    }

    /// Characters a row's cell block occupies: one cell of
    /// `byte_width + 1` characters per byte position.
    pub fn row_character_width(self) -> (w: usize)
        ensures
            w == spec_row_width(self) * (spec_byte_width(self) + 1),
    {
        match self {
            Base::Hex => 48,
            Base::Octal => 40,
        }
    }
}

/// A resolved dump configuration, consumed by all components.
#[derive(Clone, Copy)]
pub struct Config {
    /// Numeric base of the byte cells and offset labels.
    pub base: Base,
    /// Byte position to start at.
    pub offset: u64,
    /// Maximum number of bytes to display; `None` means the rest of the file.
    pub length: Option<u64>,
    /// Whether the offset header, rules and per-row offset labels are shown.
    pub show_guides: bool,
    /// Whether output is colorized by byte class.
    pub show_colors: bool,
    /// Whether the ASCII sidebar is shown.
    pub show_ascii: bool,
}

} // verus!
