use hexed::dump::{dump_lines, Dumper};
use hexed::render::row_line;
use hexed::{Base, Config};

fn config(base: Base) -> Config {
    Config {
        base,
        offset: 0,
        length: None,
        show_guides: true,
        show_colors: false,
        show_ascii: true,
    }
}

fn pad_cells(count: usize, width: usize) -> String {
    let mut s = String::new();
    for _ in 0..count {
        for _ in 0..width + 1 {
            s.push(' ');
        }
    }
    s
}

#[test]
fn one_hex_row_with_sidebar() {
    let cfg = config(Base::Hex);
    let data = [0x00u8, 0x41, 0x1B, 0xFF];
    let lines = dump_lines(&cfg, &data, "f");
    assert_eq!(lines.len(), 5);
    let expected_row = format!(
        "00000000 \u{2502} 00 41 1B FF {}  A  ",
        pad_cells(12, 2)
    );
    assert_eq!(lines[2], expected_row);
    assert_eq!(lines[4], "4 bytes in `f`");
}

#[test]
fn length_limit_truncates_the_row() {
    let mut cfg = config(Base::Hex);
    cfg.length = Some(2);
    let data = [0x00u8, 0x41, 0x1B, 0xFF];
    let lines = dump_lines(&cfg, &data, "f");
    assert_eq!(lines.len(), 5);
    let expected_row = format!("00000000 \u{2502} 00 41 {}  A", pad_cells(14, 2));
    assert_eq!(lines[2], expected_row);
    assert_eq!(lines[4], "2 bytes in `f`");
}

#[test]
fn offset_beyond_the_end_shows_nothing() {
    let mut cfg = config(Base::Hex);
    cfg.offset = 100;
    let data = [0x00u8, 0x41, 0x1B, 0xFF];
    let lines = dump_lines(&cfg, &data, "f");
    assert_eq!(lines.len(), 4);
    assert_eq!(lines[3], "0 bytes in `f`");
}

#[test]
fn zero_length_shows_nothing() {
    let mut cfg = config(Base::Hex);
    cfg.length = Some(0);
    let data = [0x55u8; 64];
    let lines = dump_lines(&cfg, &data, "f");
    assert_eq!(lines.len(), 4);
    assert_eq!(lines[3], "0 bytes in `f`");
}

#[test]
fn offset_skips_and_relabels_rows() {
    let mut cfg = config(Base::Hex);
    cfg.offset = 2;
    cfg.show_ascii = false;
    let data = [0x00u8, 0x01, 0x02, 0x03];
    let lines = dump_lines(&cfg, &data, "f");
    assert_eq!(lines.len(), 5);
    let expected_row = format!("00000000 \u{2502} 02 03 {}", pad_cells(14, 2));
    assert_eq!(lines[2], expected_row);
    assert_eq!(lines[4], "2 bytes in `f`");
}

#[test]
fn row_count_rounds_up() {
    // 33 bytes in hex mode: three rows of sixteen-byte capacity.
    let cfg = config(Base::Hex);
    let data = [0u8; 33];
    let lines = dump_lines(&cfg, &data, "f");
    assert_eq!(lines.len(), 2 + 3 + 2);
    // the same bytes in octal mode: eight-byte rows, so five rows.
    let cfg = config(Base::Octal);
    let lines = dump_lines(&cfg, &data, "f");
    assert_eq!(lines.len(), 2 + 5 + 2);
}

#[test]
fn no_guides_drops_header_rule_and_labels() {
    let mut cfg = config(Base::Hex);
    cfg.show_guides = false;
    cfg.show_ascii = false;
    let data = [0xABu8];
    let lines = dump_lines(&cfg, &data, "f");
    assert_eq!(lines.len(), 2);
    let expected_row = format!("AB {}", pad_cells(15, 2));
    assert_eq!(lines[0], expected_row);
    assert_eq!(lines[1], "1 bytes in `f`");
}

#[test]
fn identical_runs_give_identical_output() {
    let mut cfg = config(Base::Octal);
    cfg.length = Some(20);
    cfg.offset = 3;
    let mut data = Vec::new();
    for i in 0..64u8 {
        data.push(i.wrapping_mul(37));
    }
    let first = dump_lines(&cfg, &data, "some/path");
    let second = dump_lines(&cfg, &data, "some/path");
    assert_eq!(first, second);
}

#[test]
fn interruption_stops_after_the_current_row() {
    let cfg = config(Base::Hex);
    let data = [0x20u8; 160];
    let mut d = Dumper::begin(cfg);
    let mut lines: Vec<String> = Vec::new();
    let mut fed = 0usize;
    while !d.done {
        let interrupted = lines.len() == 2;
        let chunk = &data[fed..(fed + 16).min(data.len())];
        match d.step(chunk, interrupted) {
            Some(line) => {
                fed += 16;
                lines.push(line);
            }
            None => {}
        }
    }
    assert_eq!(lines.len(), 2);
    assert_eq!(d.rows, 2);
    let footer = d.finish("f");
    assert_eq!(footer.len(), 2);
    assert_eq!(footer[1], "32 bytes in `f`");
}

#[test]
fn stepping_matches_the_whole_buffer_dump() {
    let mut cfg = config(Base::Octal);
    cfg.length = Some(21);
    let mut data = Vec::new();
    for i in 0..60u8 {
        data.push(i);
    }
    let whole = dump_lines(&cfg, &data, "f");
    let mut d = Dumper::begin(cfg);
    let mut lines: Vec<String> = Vec::new();
    let mut fed = 0usize;
    while !d.done {
        let chunk = &data[fed..(fed + 8).min(data.len())];
        match d.step(chunk, false) {
            Some(line) => {
                fed += chunk.len().min(8);
                lines.push(line);
            }
            None => {}
        }
    }
    let body = &whole[2..whole.len() - 2];
    assert_eq!(lines, body);
    let footer = d.finish("f");
    assert_eq!(footer[1], whole[whole.len() - 1]);
}

#[test]
fn dumper_budget_reaches_done_exactly() {
    let mut cfg = config(Base::Hex);
    cfg.length = Some(16);
    let data = [7u8; 32];
    let mut d = Dumper::begin(cfg);
    let line = d.step(&data[0..16], false);
    assert!(line.is_some());
    assert!(d.done);
    assert_eq!(d.bytes_emitted, 16);
}

#[test]
fn row_line_matches_dump_row() {
    let cfg = config(Base::Hex);
    let data = [1u8, 2, 3];
    let lines = dump_lines(&cfg, &data, "f");
    let line = row_line(&cfg, 0, &data);
    assert_eq!(lines[2], line);
}
