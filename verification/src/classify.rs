//! The byte classifier: a pure, total map from a byte value to its
//! display class, and the placeholder rule for the ASCII sidebar.

use vstd::prelude::*;

verus! {

/// The display category a byte is bucketed into for coloring purposes.
#[derive(Clone, Copy, PartialEq, Eq, Structural, Debug)]
pub enum ByteClass {
    /// The byte `0x00`.
    Null,
    /// A non-printable ASCII byte: `0x01..=0x1F` or `0x7F`.
    Control,
    /// A printable ASCII byte: `0x20..=0x7E` (space through tilde).
    Printable,
    /// Any other value: `0x80..=0xFF`.
    Other,
}

/// The class of a byte value.
pub open spec fn spec_classify(b: u8) -> ByteClass {
    if b == 0x00 {
        ByteClass::Null
    } else if b <= 0x1F || b == 0x7F {
        ByteClass::Control
    } else if 0x20 <= b <= 0x7E {
        ByteClass::Printable
    } else {
        ByteClass::Other
    }
}

/// Maps a byte value to its display class.
pub fn classify(b: u8) -> (c: ByteClass)
    ensures
        c == spec_classify(b),
{
    if b == 0x00 {
        ByteClass::Null
    } else if b <= 0x1F || b == 0x7F {
        ByteClass::Control
    } else if b <= 0x7E {
        ByteClass::Printable
    } else {
        ByteClass::Other
    }
}

/// The classifier is total and deterministic: every byte value falls in
/// exactly one class, and each class holds exactly the stated range.
pub proof fn lemma_classify_total(b: u8)
    ensures
        spec_classify(b) == ByteClass::Null <==> b == 0x00,
        spec_classify(b) == ByteClass::Control <==> (0x01 <= b <= 0x1F || b == 0x7F),
        spec_classify(b) == ByteClass::Printable <==> 0x20 <= b <= 0x7E,
        spec_classify(b) == ByteClass::Other <==> 0x80 <= b,
{
}

} // verus!
