use hexed::classify::{classify, ByteClass};
use hexed::numfmt::parse_digits;
use hexed::render::{header_cols, offset_label, ruler};
use hexed::row::{decode_cell, row_cells, sidebar};
use hexed::Base;

fn expected_class(b: u8) -> ByteClass {
    if b == 0 {
        ByteClass::Null
    } else if b <= 0x1F || b == 0x7F {
        ByteClass::Control
    } else if b <= 0x7E {
        ByteClass::Printable
    } else {
        ByteClass::Other
    }
}

#[test]
fn classify_samples() {
    assert_eq!(classify(0x00), ByteClass::Null);
    assert_eq!(classify(0x41), ByteClass::Printable);
    assert_eq!(classify(0x1B), ByteClass::Control);
    assert_eq!(classify(0x80), ByteClass::Other);
}

#[test]
fn classify_every_value() {
    for b in 0..=255u8 {
        assert_eq!(classify(b), expected_class(b));
    }
}

#[test]
fn hex_cells_of_partial_row() {
    let s = row_cells(&[0x00, 0x41, 0x1B, 0xFF], Base::Hex);
    let mut expected = String::from("00 41 1B FF ");
    for _ in 0..12 {
        expected.push_str("   ");
    }
    assert_eq!(s, expected);
}

#[test]
fn octal_cells_of_partial_row() {
    let s = row_cells(&[0xFF, 0x08], Base::Octal);
    let mut expected = String::from("0377 0010 ");
    for _ in 0..6 {
        expected.push_str("     ");
    }
    assert_eq!(s, expected);
}

#[test]
fn cell_block_width_is_constant() {
    let data = [0x5Au8; 16];
    for n in 0..=16usize {
        let s = row_cells(&data[..n], Base::Hex);
        assert_eq!(s.chars().count(), 48);
    }
    for n in 0..=8usize {
        let s = row_cells(&data[..n], Base::Octal);
        assert_eq!(s.chars().count(), 40);
    }
}

#[test]
fn cells_round_trip_every_byte() {
    for base in [Base::Hex, Base::Octal] {
        let width = base.byte_width();
        for b in 0..=255u8 {
            let s = row_cells(&[b], base);
            let cell: Vec<char> = s.chars().take(width).collect();
            assert_eq!(decode_cell(&cell, base), Some(b));
        }
    }
}

#[test]
fn decode_rejects_bad_cells() {
    let no_digits: Vec<char> = vec!['Z', 'Z'];
    assert_eq!(decode_cell(&no_digits, Base::Hex), None);
    let too_short: Vec<char> = vec!['4'];
    assert_eq!(decode_cell(&too_short, Base::Hex), None);
    let over_byte: Vec<char> = vec!['7', '7', '7', '7'];
    assert_eq!(decode_cell(&over_byte, Base::Octal), None);
    let not_octal: Vec<char> = vec!['0', '0', '9', '9'];
    assert_eq!(decode_cell(&not_octal, Base::Octal), None);
}

#[test]
fn parse_digits_reads_values() {
    let forty_two: Vec<char> = vec!['4', '2'];
    assert_eq!(parse_digits(&forty_two, 10), Some(42));
    let hex_ff: Vec<char> = vec!['F', 'F'];
    assert_eq!(parse_digits(&hex_ff, 16), Some(255));
    let bad: Vec<char> = vec!['F', 'F'];
    assert_eq!(parse_digits(&bad, 10), None);
}

#[test]
fn sidebar_marks_graphic_bytes() {
    assert_eq!(sidebar(&[0x00, 0x41, 0x1B, 0xFF]), " A  ");
    assert_eq!(sidebar(&[b'!', b'~', b' ', 0x7F]), "!~  ");
    assert_eq!(sidebar(&[]), "");
}

#[test]
fn offset_labels_count_rows() {
    assert_eq!(offset_label(0, Base::Hex), "00000000 \u{2502} ");
    assert_eq!(offset_label(2, Base::Hex), "00000020 \u{2502} ");
    assert_eq!(offset_label(16, Base::Hex), "00000100 \u{2502} ");
    assert_eq!(offset_label(1, Base::Octal), "00000010 \u{2502} ");
}

#[test]
fn header_columns_list_the_row_positions() {
    assert_eq!(
        header_cols(Base::Hex),
        "  Offset \u{2502} 00 01 02 03 04 05 06 07 08 09 0A 0B 0C 0D 0E 0F "
    );
    assert_eq!(
        header_cols(Base::Octal),
        "  Offset \u{2502} 0000 0001 0002 0003 0004 0005 0006 0007 "
    );
}

#[test]
fn ruler_spans_label_and_cells() {
    let r = ruler(Base::Hex, '\u{253C}');
    let chars: Vec<char> = r.chars().collect();
    assert_eq!(chars.len(), 9 + 1 + 48);
    assert_eq!(chars[9], '\u{253C}');
    for (i, c) in chars.iter().enumerate() {
        if i != 9 {
            assert_eq!(*c, '\u{2500}');
        }
    }
}
