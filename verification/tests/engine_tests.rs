use livesort::engine::Sorter;
use livesort::parser::parse_numeric;
use livesort::screen::ScreenState;
use livesort::screen::count_lines;

/// The total-order bit pattern of a key value.
fn key_bits(f: f64) -> u64 {
    let b = f.to_bits();
    if b & (1u64 << 63) != 0 {
        !b
    } else {
        b | (1u64 << 63)
    }
}

/// The plain numeric key of a line, as the engine's caller derives it.
fn numeric_key(line: &str) -> u64 {
    let value = match parse_numeric(line.as_bytes()) {
        Some((start, end)) => line[start..end].parse().unwrap_or(0.0),
        None => 0.0,
    };
    key_bits(value)
}

fn feed(sorter: &mut Sorter, line: &str) {
    assert!(sorter.can_ingest());
    sorter.on_line(numeric_key(line), line.as_bytes().to_vec());
}

#[test]
fn end_to_end() {
    let mut sorter = Sorter::new(10, false);
    feed(&mut sorter, "3\n");
    feed(&mut sorter, "1\n");
    feed(&mut sorter, "2\n");
    assert_eq!(sorter.full_output(), b"1\n2\n3\n".to_vec());
}

#[test]
fn reverse_flag() {
    let mut forward = Sorter::new(10, false);
    let mut backward = Sorter::new(10, true);
    for line in ["3\n", "1\n", "2\n"] {
        feed(&mut forward, line);
        feed(&mut backward, line);
    }
    assert_eq!(forward.full_output(), b"1\n2\n3\n".to_vec());
    assert_eq!(backward.full_output(), b"3\n2\n1\n".to_vec());
}

#[test]
fn default_mode_keeps_arrival_order() {
    let mut sorter = Sorter::new(10, false);
    sorter.on_line(key_bits(0.0), b"b\n".to_vec());
    sorter.on_line(key_bits(0.0), b"b\n".to_vec());
    sorter.on_line(key_bits(0.0), b"c\n".to_vec());
    assert_eq!(sorter.full_output(), b"b\nb\nc\n".to_vec());
}

#[test]
fn tick_emits_only_when_dirty() {
    let mut sorter = Sorter::new(10, false);
    assert_eq!(sorter.on_tick(), None);
    feed(&mut sorter, "1\n");
    let first = sorter.on_tick();
    assert_eq!(first, Some(b"1\n".to_vec()));
    assert_eq!(sorter.on_tick(), None);
    assert_eq!(sorter.on_tick(), None);
    feed(&mut sorter, "0\n");
    assert_eq!(sorter.on_tick(), Some(b"0\n1\n".to_vec()));
}

#[test]
fn frame_truncation_marker() {
    let mut sorter = Sorter::new(2, false);
    feed(&mut sorter, "3\n");
    feed(&mut sorter, "1\n");
    assert_eq!(sorter.on_tick(), Some(b"1\n3\n".to_vec()));
    feed(&mut sorter, "2\n");
    assert_eq!(sorter.on_tick(), Some(b"1\n2\n...\n".to_vec()));

    let mut reversed = Sorter::new(2, true);
    feed(&mut reversed, "3\n");
    feed(&mut reversed, "1\n");
    feed(&mut reversed, "2\n");
    assert_eq!(reversed.on_tick(), Some(b"3\n2\n...\n".to_vec()));
}

#[test]
fn screen_redraw_protocol() {
    let mut screen = ScreenState::new();
    assert!(!screen.needs_final_erase());
    let frame = b"1\n2\n...\n".to_vec();
    let (erase, lines) = screen.on_frame(&frame);
    assert!(!erase);
    assert_eq!(lines, 3);
    let (erase, lines) = screen.on_frame(&b"1\n".to_vec());
    assert!(erase);
    assert_eq!(lines, 1);
    assert!(screen.needs_final_erase());
}

#[test]
fn line_counting() {
    assert_eq!(count_lines(&Vec::new()), 0);
    assert_eq!(count_lines(&b"a\n".to_vec()), 1);
    assert_eq!(count_lines(&b"a\nb".to_vec()), 2);
    assert_eq!(count_lines(&b"a\n\nb\n".to_vec()), 3);
}
