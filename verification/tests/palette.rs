use victuner::kb_rgb_effects::ambient::{
    default_palette, palette_file_contents, palette_from_file, parse_palette_line,
    rgb_label_string, snap_to_palette, PaletteEntry,
};

fn entry(r: u8, g: u8, b: u8, label: &str) -> PaletteEntry {
    PaletteEntry { r, g, b, label: label.to_string() }
}

fn fields(e: &PaletteEntry) -> (u8, u8, u8, String) {
    (e.r, e.g, e.b, e.label.clone())
}

#[test]
fn line_with_label() {
    let e = parse_palette_line("255,128,0 # Orange").unwrap();
    assert_eq!(fields(&e), (255, 128, 0, "Orange".to_string()));
}

#[test]
fn line_without_label_gets_rgb_label() {
    let e = parse_palette_line("  10 , 20 ,30   ").unwrap();
    assert_eq!(fields(&e), (10, 20, 30, "(10,20,30)".to_string()));
}

#[test]
fn line_with_empty_label_gets_rgb_label() {
    let e = parse_palette_line("1,2,3 #   ").unwrap();
    assert_eq!(fields(&e), (1, 2, 3, "(1,2,3)".to_string()));
}

#[test]
fn line_label_keeps_later_hashes() {
    let e = parse_palette_line("1,2,3 # a # b").unwrap();
    assert_eq!(e.label, "a # b");
}

#[test]
fn line_blank_and_comment_hold_nothing() {
    assert!(parse_palette_line("").is_none());
    assert!(parse_palette_line("   \t ").is_none());
    assert!(parse_palette_line("# a comment").is_none());
    assert!(parse_palette_line("   # indented comment").is_none());
}

#[test]
fn line_needs_three_channels() {
    assert!(parse_palette_line("1,2").is_none());
    assert!(parse_palette_line("1,2,3,4").is_none());
    assert!(parse_palette_line("1,,3").is_none());
}

#[test]
fn line_channels_must_fit_a_byte() {
    assert!(parse_palette_line("256,0,0").is_none());
    assert!(parse_palette_line("-1,0,0").is_none());
    assert!(parse_palette_line("a,0,0").is_none());
    assert!(parse_palette_line("+,0,0").is_none());
    let e = parse_palette_line("+5,007,255").unwrap();
    assert_eq!(fields(&e), (5, 7, 255, "(5,7,255)".to_string()));
}

#[test]
fn line_unicode_whitespace_is_trimmed() {
    let e = parse_palette_line("\u{3000}1,\u{a0}2,3\u{2003}# Deep\u{85}").unwrap();
    assert_eq!(fields(&e), (1, 2, 3, "Deep".to_string()));
}

#[test]
fn rgb_label_format() {
    assert_eq!(rgb_label_string(0, 128, 255), "(0,128,255)");
}

#[test]
fn default_palette_contents() {
    let p = default_palette();
    assert_eq!(p.len(), 12);
    assert_eq!(fields(&p[0]), (255, 0, 0, "Red".to_string()));
    assert_eq!(fields(&p[9]), (100, 12, 223, "Purple".to_string()));
    assert_eq!(fields(&p[11]), (255, 0, 128, "Pink".to_string()));
}

#[test]
fn file_contents_format() {
    let p = vec![entry(1, 2, 3, "One"), entry(255, 0, 10, "Two words")];
    assert_eq!(palette_file_contents(&p), "1,2,3 # One\n255,0,10 # Two words\n");
    assert_eq!(palette_file_contents(&[]), "\n");
}

#[test]
fn default_palette_round_trip() {
    let p = default_palette();
    let text = palette_file_contents(&p);
    let back = palette_from_file(&text).unwrap();
    assert_eq!(back.len(), p.len());
    for i in 0..p.len() {
        assert_eq!(fields(&back[i]), fields(&p[i]));
    }
}

#[test]
fn empty_file_holds_no_palette() {
    assert!(palette_from_file("").is_none());
    assert!(palette_from_file("\n").is_none());
    assert!(palette_from_file("# only comments\n\n  \n").is_none());
}

#[test]
fn file_skips_bad_lines_and_handles_crlf() {
    let back = palette_from_file("1,2,3 # A\r\nbad line\r\n\r\n4,5,6\r\n7,8,9 # last").unwrap();
    assert_eq!(back.len(), 3);
    assert_eq!(fields(&back[0]), (1, 2, 3, "A".to_string()));
    assert_eq!(fields(&back[1]), (4, 5, 6, "(4,5,6)".to_string()));
    assert_eq!(fields(&back[2]), (7, 8, 9, "last".to_string()));
}

#[test]
fn label_with_outer_space_does_not_round_trip() {
    let p = vec![entry(1, 2, 3, " padded")];
    let back = palette_from_file(&palette_file_contents(&p)).unwrap();
    assert_eq!(back[0].label, "padded");
}

#[test]
fn snap_empty_palette_keeps_colour() {
    assert_eq!(snap_to_palette(12, 34, 56, &[]), (12, 34, 56));
}

#[test]
fn snap_picks_nearest() {
    let p = default_palette();
    assert_eq!(snap_to_palette(250, 10, 5, &p), (255, 0, 0));
    assert_eq!(snap_to_palette(90, 20, 200, &p), (100, 12, 223));
    assert_eq!(snap_to_palette(0, 0, 0, &p), (100, 12, 223));
}

#[test]
fn snap_ties_go_to_first() {
    let p = vec![entry(10, 0, 0, "a"), entry(0, 10, 0, "b")];
    assert_eq!(snap_to_palette(5, 5, 0, &p), (10, 0, 0));
    let q = vec![entry(0, 10, 0, "b"), entry(10, 0, 0, "a")];
    assert_eq!(snap_to_palette(5, 5, 0, &q), (0, 10, 0));
}

#[test]
fn snap_is_idempotent() {
    let p = default_palette();
    let (r, g, b) = snap_to_palette(77, 140, 30, &p);
    assert_eq!(snap_to_palette(r, g, b, &p), (r, g, b));
    for e in &p {
        assert_eq!(snap_to_palette(e.r, e.g, e.b, &p), (e.r, e.g, e.b));
    }
}

#[test]
fn entry_duplicate_copies() {
    let e = entry(9, 8, 7, "x");
    assert_eq!(fields(&e.duplicate()), fields(&e));
}

#[test]
fn any_written_line_reads_back_trimmed() {
    let e = entry(1, 2, 3, "\ta\nb  ");
    let mut text = String::new();
    text.push_str("1,2,3 # ");
    text.push_str(&e.label);
    let back = parse_palette_line(&text).unwrap();
    assert_eq!(fields(&back), (1, 2, 3, "a\nb".to_string()));
    let back = parse_palette_line("9,8,7 #  \t ").unwrap();
    assert_eq!(fields(&back), (9, 8, 7, "(9,8,7)".to_string()));
}
