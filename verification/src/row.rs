//! The row formatter: one chunk of up to `row_width` bytes becomes the
//! numeric cells of a row, right-padded so every row's cell block has the
//! same width, and the characters of the ASCII sidebar.

use vstd::prelude::*;
use vstd::arithmetic::power::pow;
use crate::{Base, spec_byte_width, spec_radix, spec_row_width};
use crate::numfmt::{
    all_digits, lemma_padded_len, lemma_padded_val, parse_digits, push_padded, spec_padded,
    spec_text_val,
};
use crate::text::chars_to_string;

verus! {

/// The numeric cell of one byte: its padded digits and one space.
pub open spec fn spec_cell(b: u8, base: Base) -> Seq<char> {
    spec_padded(b as nat, spec_radix(base), spec_byte_width(base)) + seq![' ']
}

/// The cells of the bytes present in a chunk, in order.
pub open spec fn spec_cells(chunk: Seq<u8>, base: Base) -> Seq<char>
    decreases chunk.len(),
{
    if chunk.len() == 0 {
        Seq::empty()
    } else {
        spec_cell(chunk[0], base) + spec_cells(chunk.drop_first(), base)
    }
}

/// `k` space characters.
pub open spec fn spec_spaces(k: nat) -> Seq<char> {
    Seq::new(k, |i: int| ' ')
}

/// A chunk's full cell block: the cells of its bytes, then space runs of
/// cell width for the positions the chunk leaves empty.
pub open spec fn spec_row_cells(chunk: Seq<u8>, base: Base) -> Seq<char> {
    let pad: nat = if chunk.len() <= spec_row_width(base) {
        ((spec_row_width(base) - chunk.len()) * (spec_byte_width(base) + 1)) as nat
    } else {
        0
    };
    spec_cells(chunk, base) + spec_spaces(pad)
}

/// The sidebar character of one byte: the byte read as ASCII if it is
/// graphic, else a space placeholder.
pub open spec fn spec_sidebar_char(b: u8) -> char {
    if 0x21 <= b <= 0x7E {
        b as char
    } else {
        ' '
    }
}

/// The sidebar characters of a chunk, one per byte present.
pub open spec fn spec_sidebar(chunk: Seq<u8>) -> Seq<char> {
    Seq::new(chunk.len(), |i: int| spec_sidebar_char(chunk[i]))
}

/// A byte's value fits the byte width of either base.
proof fn lemma_byte_fits(base: Base)
    ensures
        256 <= pow(spec_radix(base) as int, spec_byte_width(base)),
{
    reveal(pow);
    match base {
        Base::Hex => {
            assert(pow(16, 0) == 1);
            assert(pow(16, 1) == 16);
            assert(pow(16, 2) == 256);
        },
        Base::Octal => {
            assert(pow(8, 0) == 1);
            assert(pow(8, 1) == 8);
            assert(pow(8, 2) == 64);
            assert(pow(8, 3) == 512);
            assert(pow(8, 4) == 4096);
        },
    }
}

/// A byte's cell is one character wider than the byte width.
pub proof fn lemma_cell_len(b: u8, base: Base)
    ensures
        spec_cell(b, base).len() == spec_byte_width(base) + 1,
{
    lemma_byte_fits(base);
    lemma_padded_len(b as nat, spec_radix(base), spec_byte_width(base));
}

/// The cells of a chunk occupy one cell width per byte.
pub proof fn lemma_cells_len(chunk: Seq<u8>, base: Base)
    ensures
        spec_cells(chunk, base).len() == chunk.len() * (spec_byte_width(base) + 1),
    decreases chunk.len(),
{
    if chunk.len() > 0 {
        lemma_cell_len(chunk[0], base);
        lemma_cells_len(chunk.drop_first(), base);
        let w1 = spec_byte_width(base) + 1;
        assert((chunk.len() - 1) * w1 + w1 == chunk.len() * w1) by (nonlinear_arith)
            requires
                chunk.len() >= 1,
        ;
    }
}

/// Padding law: a partial row's cell block is exactly as wide as a full
/// row's, no matter how many bytes the chunk holds.
pub proof fn lemma_row_cells_width(chunk: Seq<u8>, base: Base)
    requires
        chunk.len() <= spec_row_width(base),
    ensures
        spec_row_cells(chunk, base).len() == spec_row_width(base) * (spec_byte_width(base) + 1),
{
    lemma_cells_len(chunk, base);
    let w1 = spec_byte_width(base) + 1;
    let rw = spec_row_width(base);
    assert(chunk.len() * w1 + (rw - chunk.len()) * w1 == rw * w1) by (nonlinear_arith)
        requires
            chunk.len() <= rw,
    ;
}

/// Appending one byte appends its cell.
pub(crate) proof fn lemma_cells_snoc(s: Seq<u8>, b: u8, base: Base)
    ensures
        spec_cells(s.push(b), base) == spec_cells(s, base) + spec_cell(b, base),
    decreases s.len(),
{
    let t = s.push(b);
    if s.len() == 0 {
        assert(t[0] == b);
        assert(t.drop_first() =~= Seq::<u8>::empty());
        assert(spec_cells(t.drop_first(), base) == Seq::<char>::empty());
        assert(spec_cells(t, base) == spec_cell(b, base) + spec_cells(t.drop_first(), base));
        assert(spec_cells(s, base) == Seq::<char>::empty());
        assert(spec_cells(t, base) =~= spec_cells(s, base) + spec_cell(b, base));
    } else {
        assert(t[0] == s[0]);
        assert(t.drop_first() =~= s.drop_first().push(b));
        assert(spec_cells(t, base) == spec_cell(s[0], base) + spec_cells(t.drop_first(), base));
        lemma_cells_snoc(s.drop_first(), b, base);
        assert(spec_cells(t.drop_first(), base) == spec_cells(s.drop_first(), base) + spec_cell(
            b,
            base,
        ));
        assert(spec_cells(s, base) == spec_cell(s[0], base) + spec_cells(s.drop_first(), base));
        assert(spec_cells(t, base) =~= spec_cells(s, base) + spec_cell(b, base));
    }
}

/// The cell of byte `i` stands at position `i` cell widths into the cells.
proof fn lemma_cells_extract(chunk: Seq<u8>, base: Base, i: int)
    requires
        0 <= i < chunk.len(),
    ensures
        ({
            let w1 = spec_byte_width(base) + 1;
            spec_cells(chunk, base).subrange(i * w1, i * w1 + w1) == spec_cell(chunk[i], base)
        }),
    decreases i,
{
    let w1 = spec_byte_width(base) + 1;
    lemma_cells_len(chunk, base);
    lemma_cell_len(chunk[0], base);
    lemma_cells_len(chunk.drop_first(), base);
    assert((i + 1) * w1 <= chunk.len() * w1) by (nonlinear_arith)
        requires
            i + 1 <= chunk.len(),
            w1 >= 1,
    ;
    assert(i * w1 + w1 == (i + 1) * w1) by (nonlinear_arith);
    assert((chunk.len() - 1) * w1 == chunk.len() * w1 - w1) by (nonlinear_arith);
    if i == 0 {
        assert(i * w1 == 0) by (nonlinear_arith)
            requires
                i == 0,
        ;
        assert(spec_cells(chunk, base).subrange(0, w1 as int) =~= spec_cell(chunk[0], base));
        assert(spec_cells(chunk, base).subrange(i * w1, i * w1 + w1) == spec_cell(
            chunk[i],
            base,
        ));
    } else {
        lemma_cells_extract(chunk.drop_first(), base, i - 1);
        assert((i - 1) * w1 == i * w1 - w1) by (nonlinear_arith);
        assert(spec_cells(chunk, base).subrange(i * w1, i * w1 + w1) =~= spec_cells(
            chunk.drop_first(),
            base,
        ).subrange((i - 1) * w1, (i - 1) * w1 + w1));
        assert(chunk.drop_first()[i - 1] == chunk[i]);
        assert(spec_cells(chunk, base).subrange(i * w1, i * w1 + w1) == spec_cell(
            chunk[i],
            base,
        ));
    }
}

/// Round-trip law of the row encoding: each byte's value can be
/// re-derived from its numeric cell inside the row's cell block.
pub proof fn lemma_row_round_trip(chunk: Seq<u8>, base: Base, i: int)
    requires
        chunk.len() <= spec_row_width(base),
        0 <= i < chunk.len(),
    ensures
        ({
            let w = spec_byte_width(base);
            let digits = spec_row_cells(chunk, base).subrange(i * (w + 1), i * (w + 1) + w);
            spec_text_val(digits, spec_radix(base)) == chunk[i]
        }),
{
    let w = spec_byte_width(base);
    let w1 = w + 1;
    lemma_cells_extract(chunk, base, i);
    lemma_cells_len(chunk, base);
    lemma_cell_len(chunk[i], base);
    lemma_byte_fits(base);
    lemma_padded_val(chunk[i] as nat, spec_radix(base), w);
    lemma_padded_len(chunk[i] as nat, spec_radix(base), w);
    assert(i * w1 + w1 <= chunk.len() * w1) by (nonlinear_arith)
        requires
            i + 1 <= chunk.len(),
            w1 >= 1,
    ;
    let cell = spec_cells(chunk, base).subrange(i * w1, i * w1 + w1);
    assert(spec_row_cells(chunk, base).subrange(i * w1, i * w1 + w) =~= cell.subrange(0, w as int));
    assert(cell.subrange(0, w as int) =~= spec_padded(chunk[i] as nat, spec_radix(base), w));
}

/// Appends the full cell block of a chunk.
pub fn push_row_cells(out: &mut Vec<char>, chunk: &[u8], base: Base)
    requires
        chunk@.len() <= spec_row_width(base),
    ensures
        final(out)@ == old(out)@ + spec_row_cells(chunk@, base),
{
    let w = base.byte_width();
    let rw = base.row_width();
    let radix = base.radix();
    let mut i: usize = 0;
    proof {
        assert(chunk@.take(0) =~= Seq::<u8>::empty());
        assert(out@ =~= old(out)@ + spec_cells(chunk@.take(0), base));
    }
    while i < chunk.len()
        invariant
            i <= chunk@.len(),
            chunk@.len() <= spec_row_width(base),
            w == spec_byte_width(base),
            radix == spec_radix(base),
            out@ == old(out)@ + spec_cells(chunk@.take(i as int), base),
        decreases chunk@.len() - i,
    {
        push_padded(out, chunk[i] as u128, radix, w);
        out.push(' ');
        proof {
            assert(chunk@.take(i + 1) =~= chunk@.take(i as int).push(chunk@[i as int]));
            lemma_cells_snoc(chunk@.take(i as int), chunk@[i as int], base);
            assert(out@ =~= old(out)@ + spec_cells(chunk@.take(i + 1), base));
        }
        i += 1;
    }
    proof {
        assert(chunk@.take(chunk@.len() as int) =~= chunk@);
    }
    proof {
        assert(spec_row_width(base) <= 16);
        assert(spec_byte_width(base) <= 4);
        assert(((rw - chunk@.len()) as int) * ((w + 1) as int) <= 80) by (nonlinear_arith)
            requires
                rw <= 16,
                chunk@.len() <= rw,
                w <= 4,
        ;
    }
    let pad: usize = (rw - chunk.len()) * (w + 1);
    let mut j: usize = 0;
    proof {
        assert(spec_spaces(0) =~= Seq::<char>::empty());
        assert(out@ =~= old(out)@ + spec_cells(chunk@, base) + spec_spaces(0));
    }
    while j < pad
        invariant
            j <= pad,
            out@ == old(out)@ + spec_cells(chunk@, base) + spec_spaces(j as nat),
        decreases pad - j,
    {
        out.push(' ');
        proof {
            assert(spec_spaces((j + 1) as nat) =~= spec_spaces(j as nat).push(' '));
            assert(out@ =~= old(out)@ + spec_cells(chunk@, base) + spec_spaces((j + 1) as nat));
        }
        j += 1;
    }
    proof {
        assert(out@ =~= old(out)@ + spec_row_cells(chunk@, base));
    }
}

/// Appends the sidebar characters of a chunk.
pub fn push_sidebar(out: &mut Vec<char>, chunk: &[u8])
    ensures
        final(out)@ == old(out)@ + spec_sidebar(chunk@),
{
    let mut i: usize = 0;
    proof {
        assert(spec_sidebar(chunk@.take(0)) =~= Seq::<char>::empty());
        assert(out@ =~= old(out)@ + spec_sidebar(chunk@.take(0)));
    }
    while i < chunk.len()
        invariant
            i <= chunk@.len(),
            out@ == old(out)@ + spec_sidebar(chunk@.take(i as int)),
        decreases chunk@.len() - i,
    {
        let b = chunk[i];
        let c: char = if 0x21 <= b && b <= 0x7E {
            b as char
        } else {
            ' '
        };
        out.push(c);
        proof {
            assert(spec_sidebar(chunk@.take(i + 1)) =~= spec_sidebar(chunk@.take(i as int)).push(
                spec_sidebar_char(chunk@[i as int]),
            ));
            assert(out@ =~= old(out)@ + spec_sidebar(chunk@.take(i + 1)));
        }
        i += 1;
    }
    proof {
        assert(chunk@.take(chunk@.len() as int) =~= chunk@);
    }
}

/// The numeric cell of one byte as a string.
pub fn byte_cell(b: u8, base: Base) -> (s: String)
    ensures
        s@ == spec_cell(b, base),
{
    let mut v: Vec<char> = Vec::new();
    push_padded(&mut v, b as u128, base.radix(), base.byte_width());
    v.push(' ');
    proof {
        assert(v@ =~= spec_cell(b, base));
    }
    chars_to_string(v)
}

/// One empty cell: a space run of cell width.
pub fn pad_cell(base: Base) -> (s: String)
    ensures
        s@ == spec_spaces(spec_byte_width(base) + 1),
{
    let n = base.byte_width() + 1;
    let mut v: Vec<char> = Vec::new();
    let mut j: usize = 0;
    proof {
        assert(v@ =~= spec_spaces(0));
    }
    while j < n
        invariant
            j <= n,
            v@ == spec_spaces(j as nat),
        decreases n - j,
    {
        v.push(' ');
        proof {
            assert(spec_spaces((j + 1) as nat) =~= spec_spaces(j as nat).push(' '));
        }
        j += 1;
    }
    proof {
        assert(v@ =~= spec_spaces(spec_byte_width(base) + 1));
    }
    chars_to_string(v)
}

/// The full cell block of a chunk as a string.
pub fn row_cells(chunk: &[u8], base: Base) -> (s: String)
    requires
        chunk@.len() <= spec_row_width(base),
    ensures
        s@ == spec_row_cells(chunk@, base),
{
    let mut v: Vec<char> = Vec::new();
    push_row_cells(&mut v, chunk, base);
    chars_to_string(v)
}

/// The sidebar of a chunk as a string.
pub fn sidebar(chunk: &[u8]) -> (s: String)
    ensures
        s@ == spec_sidebar(chunk@),
{
    let mut v: Vec<char> = Vec::new();
    push_sidebar(&mut v, chunk);
    chars_to_string(v)
}

/// Reads one numeric cell's digits back to the byte value; `None` where
/// the text is not the cell of a byte value in the base.
pub fn decode_cell(cell: &Vec<char>, base: Base) -> (r: Option<u8>)
    ensures
        match r {
            Some(b) => cell@.len() == spec_byte_width(base) && all_digits(cell@, spec_radix(base))
                && b as nat == spec_text_val(cell@, spec_radix(base)),
            None => !(cell@.len() == spec_byte_width(base) && all_digits(cell@, spec_radix(base))
                && spec_text_val(cell@, spec_radix(base)) < 256),
        },
{
    if cell.len() != base.byte_width() {
        return None;
    }
    match parse_digits(cell, base.radix()) {
        Some(v) => {
            if v <= 255 {
                Some(v as u8)
            } else {
                None
            }
        },
        None => None,
    }
}

} // verus!
