//! The renderer: offset labels, the column header, horizontal rules, row
//! lines and the footer, composed from the row formatter's output.

use vstd::prelude::*;
use crate::{Base, Config, spec_byte_width, spec_radix, spec_row_width};
use crate::numfmt::{push_padded, spec_padded};
use crate::row::{push_row_cells, push_sidebar, spec_cell, spec_cells, spec_row_cells, spec_sidebar};
use crate::text::chars_to_string;

verus! {

/// `k` horizontal-rule characters.
pub open spec fn spec_dashes(k: nat) -> Seq<char> {
    Seq::new(k, |i: int| '─')
}

/// A row's offset guide: the row's starting offset, eight digits
/// zero-padded in the active base, then a vertical bar.
pub open spec fn spec_offset_label(row: nat, base: Base) -> Seq<char> {
    spec_padded(row * spec_row_width(base), spec_radix(base), 8) + " │ "@
}

/// The header's column line: a fixed banner, then the column indices
/// written as cells of the active base.
pub open spec fn spec_header_cols(base: Base) -> Seq<char> {
    "  Offset │ "@ + spec_cells(spec_index_bytes(base), base)
}

/// The column indices of a row, as bytes.
pub open spec fn spec_index_bytes(base: Base) -> Seq<u8> {
    Seq::new(spec_row_width(base), |i: int| i as u8)
}

/// A horizontal rule: it spans the offset-label width, a junction
/// character, then the width of the cell block.
pub open spec fn spec_ruler(base: Base, mid: char) -> Seq<char> {
    spec_dashes(9) + seq![mid] + spec_dashes(spec_row_width(base) * (spec_byte_width(base) + 1))
}

/// One row's output line: the offset guide if guides are shown, the cell
/// block, and the sidebar if it is shown.
pub open spec fn spec_row_line(cfg: Config, row: nat, chunk: Seq<u8>) -> Seq<char> {
    let guide: Seq<char> = if cfg.show_guides {
        spec_offset_label(row, cfg.base)
    } else {
        Seq::empty()
    };
    let side: Seq<char> = if cfg.show_ascii {
        seq![' '] + spec_sidebar(chunk)
    } else {
        Seq::empty()
    };
    guide + spec_row_cells(chunk, cfg.base) + side
}

/// The header's lines: the column line and an opening rule, or nothing
/// when guides are off.
pub open spec fn spec_header_lines(cfg: Config) -> Seq<Seq<char>> {
    if cfg.show_guides {
        seq![spec_header_cols(cfg.base), spec_ruler(cfg.base, '┼')]
    } else {
        Seq::empty()
    }
}

/// The footer's summary line: the byte count in decimal and the path.
pub open spec fn spec_footer_summary(bytes: nat, path: Seq<char>) -> Seq<char> {
    spec_padded(bytes, 10, 1) + " bytes in `"@ + path + "`"@
}

/// The footer's lines: a closing rule when guides are on, then the
/// summary line.
pub open spec fn spec_footer_lines(cfg: Config, bytes: nat, path: Seq<char>) -> Seq<Seq<char>> {
    if cfg.show_guides {
        seq![spec_ruler(cfg.base, '┴'), spec_footer_summary(bytes, path)]
    } else {
        seq![spec_footer_summary(bytes, path)]
    }
}

/// Appends `k` horizontal-rule characters.
fn push_dashes(out: &mut Vec<char>, k: usize)
    ensures
        final(out)@ == old(out)@ + spec_dashes(k as nat),
{
    let mut j: usize = 0;
    proof {
        assert(out@ =~= old(out)@ + spec_dashes(0));
    }
    while j < k
        invariant
            j <= k,
            out@ == old(out)@ + spec_dashes(j as nat),
        decreases k - j,
    {
        out.push('─');
        proof {
            assert(spec_dashes((j + 1) as nat) =~= spec_dashes(j as nat).push('─'));
            assert(out@ =~= old(out)@ + spec_dashes((j + 1) as nat));
        }
        j += 1;
    }
}

/// The offset guide of one row as a string.
pub fn offset_label(row: u64, base: Base) -> (s: String)
    ensures
        s@ == spec_offset_label(row as nat, base),
{
    let rw = base.row_width();
    proof {
        assert(spec_row_width(base) <= 16);
        assert((row as int) * (rw as int) <= 0xFFFFFFFFFFFFFFFF * 16) by (nonlinear_arith)
            requires
                row <= 0xFFFFFFFFFFFFFFFF,
                rw <= 16,
        ;
        assert((row as int) * (rw as int) >= 0) by (nonlinear_arith)
            requires
                row >= 0,
                rw >= 0,
        ;
    }
    let val: u128 = (row as u128) * (rw as u128);
    let mut v: Vec<char> = Vec::new();
    push_padded(&mut v, val, base.radix(), 8);
    let mut s = chars_to_string(v);
    s.append(" │ ");
    s
}

/// A horizontal rule with the given junction character as a string.
pub fn ruler(base: Base, mid: char) -> (s: String)
    ensures
        s@ == spec_ruler(base, mid),
{
    let mut v: Vec<char> = Vec::new();
    push_dashes(&mut v, 9);
    v.push(mid);
    proof {
        assert(v@ =~= spec_dashes(9) + seq![mid]);
    }
    push_dashes(&mut v, base.row_character_width());
    proof {
        assert(v@ =~= spec_ruler(base, mid));
    }
    chars_to_string(v)
}

/// The header's column line as a string.
pub fn header_cols(base: Base) -> (s: String)
    ensures
        s@ == spec_header_cols(base),
{
    let rw = base.row_width();
    let w = base.byte_width();
    let radix = base.radix();
    let mut v: Vec<char> = Vec::new();
    let mut i: usize = 0;
    proof {
        assert(spec_index_bytes(base).take(0) =~= Seq::<u8>::empty());
        assert(v@ =~= spec_cells(spec_index_bytes(base).take(0), base));
    }
    while i < rw
        invariant
            i <= rw,
            rw == spec_row_width(base),
            w == spec_byte_width(base),
            radix == spec_radix(base),
            v@ == spec_cells(spec_index_bytes(base).take(i as int), base),
        decreases rw - i,
    {
        push_padded(&mut v, i as u128, radix, w);
        v.push(' ');
        proof {
            let idx = spec_index_bytes(base);
            assert(idx[i as int] == i as u8);
            assert((i as u8) as nat == i as nat);
            assert(v@ =~= spec_cells(idx.take(i as int), base) + spec_cell(i as u8, base));
            assert(idx.take(i + 1) =~= idx.take(i as int).push(i as u8));
            crate::row::lemma_cells_snoc(idx.take(i as int), i as u8, base);
            assert(v@ =~= spec_cells(idx.take(i + 1), base));
        }
        i += 1;
    }
    proof {
        assert(spec_index_bytes(base).take(rw as int) =~= spec_index_bytes(base));
    }
    let mut s = String::from_str("  Offset │ ");
    let cells = chars_to_string(v);
    s.append(cells.as_str());
    s
}

/// One row's output line as a string.
pub fn row_line(cfg: &Config, row: u64, chunk: &[u8]) -> (s: String)
    requires
        chunk@.len() <= spec_row_width(cfg.base),
    ensures
        s@ == spec_row_line(*cfg, row as nat, chunk@),
{
    let mut s = String::new();
    if cfg.show_guides {
        let label = offset_label(row, cfg.base);
        s.append(label.as_str());
    }
    let mut v: Vec<char> = Vec::new();
    push_row_cells(&mut v, chunk, cfg.base);
    if cfg.show_ascii {
        v.push(' ');
        proof {
            assert(v@ =~= spec_row_cells(chunk@, cfg.base) + seq![' ']);
        }
        push_sidebar(&mut v, chunk);
    }
    let rest = chars_to_string(v);
    s.append(rest.as_str());
    proof {
        assert(s@ =~= spec_row_line(*cfg, row as nat, chunk@));
    }
    s
}

/// The header's lines.
pub fn header_lines(cfg: &Config) -> (lines: Vec<String>)
    ensures
        lines.deep_view() == spec_header_lines(*cfg),
{
    let mut lines: Vec<String> = Vec::new();
    if cfg.show_guides {
        lines.push(header_cols(cfg.base));
        lines.push(ruler(cfg.base, '┼'));
        proof {
            assert(lines.deep_view() =~= spec_header_lines(*cfg));
        }
    } else {
        proof {
            assert(lines.deep_view() =~= spec_header_lines(*cfg));
        }
    }
    lines
}

/// The footer's summary line as a string.
fn footer_summary(bytes: u64, path: &str) -> (s: String)
    ensures
        s@ == spec_footer_summary(bytes as nat, path@),
{
    let mut v: Vec<char> = Vec::new();
    push_padded(&mut v, bytes as u128, 10, 1);
    let mut s = chars_to_string(v);
    s.append(" bytes in `");
    s.append(path);
    s.append("`");
    proof {
        assert(s@ =~= spec_footer_summary(bytes as nat, path@));
    }
    s
}

/// The footer's lines.
pub fn footer_lines(cfg: &Config, bytes: u64, path: &str) -> (lines: Vec<String>)
    ensures
        lines.deep_view() == spec_footer_lines(*cfg, bytes as nat, path@),
{
    let mut lines: Vec<String> = Vec::new();
    if cfg.show_guides {
        lines.push(ruler(cfg.base, '┴'));
    }
    lines.push(footer_summary(bytes, path));
    proof {
        assert(lines.deep_view() =~= spec_footer_lines(*cfg, bytes as nat, path@));
    }
    lines
}

} // verus!
