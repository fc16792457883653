use audio_spectrum::bars::{band_label, bar_string, block_text, BAR_WIDTH, NUM_BANDS};
use audio_spectrum::display::{parse_display_kind, DisplayKind, TerminalBars, TerminalDisplay};
use audio_spectrum::oled::{bar_rect, bar_width, label_origin, oled_label, GRAPH_HEIGHT, WIDTH};

#[test]
fn constructors_succeed() {
    assert!(TerminalDisplay::new().is_ok());
    assert!(TerminalBars::new().is_ok());
}

#[test]
fn display_kind_from_argument() {
    assert_eq!(parse_display_kind(Some("terminal")), Some(DisplayKind::Terminal));
    assert_eq!(parse_display_kind(Some("bars")), Some(DisplayKind::Bars));
    assert_eq!(parse_display_kind(Some("oled")), Some(DisplayKind::Oled));
    assert_eq!(parse_display_kind(Some("Oled")), None);
    assert_eq!(parse_display_kind(Some("")), None);
    assert_eq!(parse_display_kind(None), None);
}

#[test]
fn bar_with_partial_block_and_peak() {
    let s = bar_string(3, 4, 10);
    let cells: Vec<char> = s.chars().collect();
    assert_eq!(cells.len(), BAR_WIDTH);
    assert_eq!(&cells[0..3], &['\u{2588}'; 3]);
    assert_eq!(cells[3], '\u{258C}');
    assert_eq!(cells[10], '|');
    assert!(cells[4..10].iter().all(|c| *c == ' '));
    assert!(cells[11..].iter().all(|c| *c == ' '));
}

#[test]
fn peak_marker_overrides_full_bar() {
    let s = bar_string(BAR_WIDTH, 0, 49);
    let cells: Vec<char> = s.chars().collect();
    assert_eq!(cells.len(), BAR_WIDTH);
    assert!(cells[..49].iter().all(|c| *c == '\u{2588}'));
    assert_eq!(cells[49], '|');
}

#[test]
fn partial_of_eight_is_a_full_block() {
    let cells: Vec<char> = bar_string(0, 8, 49).chars().collect();
    assert_eq!(cells[0], '\u{2588}');
    assert_eq!(cells[1], ' ');
}

#[test]
fn partial_is_dropped_when_bar_is_full() {
    let cells: Vec<char> = bar_string(BAR_WIDTH, 5, 0).chars().collect();
    assert_eq!(cells[0], '|');
    assert!(cells[1..].iter().all(|c| *c == '\u{2588}'));
}

#[test]
fn block_glyphs() {
    assert_eq!(block_text(0), " ");
    assert_eq!(block_text(1), "\u{258F}");
    assert_eq!(block_text(7), "\u{2589}");
    assert_eq!(block_text(8), "\u{2588}");
}

#[test]
fn labels() {
    assert_eq!(band_label(0), "0-100 Hz");
    assert_eq!(band_label(NUM_BANDS - 1), "8k-22k");
    assert_eq!(oled_label(0), "63");
    assert_eq!(oled_label(4), "1K");
    assert_eq!(oled_label(7), "8K");
}

#[test]
fn oled_bar_geometry() {
    assert_eq!(bar_width(), 16);
    let r = bar_rect(2, bar_width(), 20);
    assert_eq!((r.x, r.y, r.width, r.height), (32, 36, 14, 20));
    let r = bar_rect(7, bar_width(), GRAPH_HEIGHT as i32);
    assert_eq!((r.x, r.y, r.width, r.height), (112, 0, 14, 56));
    assert!(r.x as usize + r.width as usize <= WIDTH);
    let r = bar_rect(0, bar_width(), 0);
    assert_eq!((r.x, r.y, r.width, r.height), (0, 56, 14, 0));
}

#[test]
fn oled_label_position() {
    assert_eq!(label_origin(0, 16), (1, 63));
    assert_eq!(label_origin(3, 16), (49, 63));
}
