use figlet::FIGfont;

/// A complete little font of the given height: a header, one comment line,
/// and 102 glyphs whose rows are `<c><r>` for glyph character `c` and row
/// number `r`.
fn full_font_text(height: usize) -> String {
    let mut text = format!("flf2a$ {} 1 4 -1 1\na one-line comment\n", height);
    let mut glyphs: Vec<char> = (32u8..127u8).map(|b| b as char).collect();
    glyphs.extend(['A', 'O', 'U', 'a', 'o', 'u', 's']);
    for c in glyphs {
        for r in 0..height {
            text.push(c);
            text.push_str(&r.to_string());
            text.push('@');
            if r == height - 1 {
                text.push('@');
            }
            text.push('\n');
        }
    }
    text
}

#[test]
fn header_example_parses() {
    let font = FIGfont::from_content(
        "flf2a$ 6 5 20 15 3\na\nb\nc\n",
    );
    // 3 comment lines, no glyph lines at all: a valid partial font.
    let font = font.unwrap();
    let h = &font.header_line;
    assert_eq!(h.signature, "flf2a");
    assert_eq!(h.hardblank, '$');
    assert_eq!(h.height, 6);
    assert_eq!(h.baseline, 5);
    assert_eq!(h.max_length, 20);
    assert_eq!(h.old_layout, 15);
    assert_eq!(h.comment_lines, 3);
    assert!(h.print_direction.is_none());
    assert!(h.full_layout.is_none());
    assert!(h.codetag_count.is_none());
}

#[test]
fn header_optional_fields_parse() {
    let font = FIGfont::from_content("flf2a$ 1 1 4 -1 0 0 24463 4\nA@@\n").unwrap();
    let h = &font.header_line;
    assert_eq!(h.print_direction, Some(0));
    assert_eq!(h.full_layout, Some(24463));
    assert_eq!(h.codetag_count, Some(4));
}

#[test]
fn header_unparsable_optional_field_is_absent() {
    let font = FIGfont::from_content("flf2a$ 1 1 4 -1 0 zip\nA@@\n").unwrap();
    assert!(font.header_line.print_direction.is_none());
}

#[test]
fn header_too_few_tokens_fails() {
    assert!(FIGfont::from_content("flf2a$ 6 5 20 15\n").is_err());
}

#[test]
fn header_short_first_token_fails() {
    assert!(FIGfont::from_content("flf2$ 6 5 20 15 3\n").is_err());
}

#[test]
fn header_unparsable_required_field_fails() {
    assert!(FIGfont::from_content("flf2a$ six 5 20 15 3\n").is_err());
}

#[test]
fn empty_input_fails() {
    assert!(FIGfont::from_content("").is_err());
}

#[test]
fn missing_comment_lines_fail() {
    assert!(FIGfont::from_content("flf2a$ 1 1 4 -1 5\nonly one comment\n").is_err());
}

#[test]
fn negative_height_fails() {
    assert!(FIGfont::from_content("flf2a$ -2 1 4 -1 0\n").is_err());
}

#[test]
fn negative_comment_count_fails() {
    assert!(FIGfont::from_content("flf2a$ 1 1 4 -1 -1\n").is_err());
}

#[test]
fn comment_lines_zero_gives_empty_comment_block() {
    let font = FIGfont::from_content("flf2a$ 1 1 4 -1 0\nA@@\n").unwrap();
    assert_eq!(font.comments, "");
}

#[test]
fn comment_lines_are_joined_with_line_breaks() {
    let text = full_font_text(2);
    let font = FIGfont::from_content(&text).unwrap();
    assert_eq!(font.comments, "a one-line comment");
    let two = "flf2a$ 1 1 4 -1 2\nfirst\nsecond\nA@@\n";
    let font = FIGfont::from_content(two).unwrap();
    assert_eq!(font.comments, "first\nsecond");
}

#[test]
fn single_character_converts_to_one_glyph() {
    let text = full_font_text(1);
    let font = FIGfont::from_content(&text).unwrap();
    let figure = font.convert("H").unwrap();
    assert_eq!(figure.characters.len(), 1);
    assert_eq!(figure.characters[0].code, 'H' as u32);
    assert_eq!(figure.characters[0].characters, vec!["H0".to_string()]);
    assert_eq!(figure.height, 1);
}

#[test]
fn empty_message_is_absent() {
    let text = full_font_text(1);
    let font = FIGfont::from_content(&text).unwrap();
    assert!(font.convert("").is_none());
}

#[test]
fn unmatched_message_is_absent() {
    // A header alone is a valid partial font with an empty glyph table.
    let font = FIGfont::from_content("flf2a$ 1 1 4 -1 0\n").unwrap();
    assert!(font.convert("Hello").is_none());
}

#[test]
fn unmatched_characters_are_dropped_silently() {
    let text = full_font_text(1);
    let font = FIGfont::from_content(&text).unwrap();
    let figure = font.convert("H\u{263a}i").unwrap();
    assert_eq!(figure.characters.len(), 2);
    assert_eq!(figure.characters[0].code, 'H' as u32);
    assert_eq!(figure.characters[1].code, 'i' as u32);
}

#[test]
fn render_yields_exactly_height_lines() {
    let text = full_font_text(4);
    let font = FIGfont::from_content(&text).unwrap();
    let figure = font.convert("Hi there").unwrap();
    let rendered = figure.render();
    assert_eq!(rendered.chars().filter(|c| *c == '\n').count(), 4);
    assert!(rendered.ends_with('\n'));
    assert_eq!(rendered.lines().count(), 4);
}

#[test]
fn figure_from_convert_is_not_empty() {
    let text = full_font_text(2);
    let font = FIGfont::from_content(&text).unwrap();
    let figure = font.convert("!").unwrap();
    assert!(figure.is_not_empty());
    assert_eq!(figure.render(), "!0\n!1\n");
}

#[test]
fn glyph_rows_lose_terminators_and_hardblanks() {
    // Height 2: first row loses one trailing '@', last row two of them, and
    // the hardblank '$' becomes a space.
    let text = "flf2a$ 2 1 4 -1 0\n_$_@\n-$-@@\n";
    let font = FIGfont::from_content(text).unwrap();
    let glyph = font.fonts.get(&32).unwrap();
    assert_eq!(glyph.characters, vec!["_ _".to_string(), "- -".to_string()]);
    assert_eq!(glyph.width, 3);
    assert_eq!(glyph.height, 2);
    assert_eq!(glyph.code, 32);
    assert_eq!(glyph.render(), "_ _\n- -");
}

#[test]
fn required_glyph_cut_off_mid_glyph_fails() {
    // Height 2, but three glyph lines: the second glyph starts inside the
    // input and runs past its end.
    let text = "flf2a$ 2 1 4 -1 0\n_@\n_@@\n-@\n";
    assert!(FIGfont::from_content(text).is_err());
}

#[test]
fn codetag_block_not_a_multiple_fails() {
    // Height 1: groups of 2 lines each; one stray line remains.
    let mut text = full_font_text(1);
    text.push_str("0x100 stray code line without rows\n");
    assert!(FIGfont::from_content(&text).is_err());
}

#[test]
fn codetag_codes_parse_hex_octal_and_decimal() {
    let mut text = full_font_text(1);
    text.push_str("0x100 hex\nh@@\n");
    text.push_str("0X101 hex again\nH@@\n");
    text.push_str("0101 octal\no@@\n");
    text.push_str("66 decimal\nd@@\n");
    let font = FIGfont::from_content(&text).unwrap();
    assert_eq!(font.fonts.get(&0x100).unwrap().characters, vec!["h".to_string()]);
    assert_eq!(font.fonts.get(&0x101).unwrap().characters, vec!["H".to_string()]);
    assert_eq!(font.fonts.get(&0o101).unwrap().characters, vec!["o".to_string()]);
    assert_eq!(font.fonts.get(&66).unwrap().characters, vec!["d".to_string()]);
}

#[test]
fn codetag_code_token_ends_at_any_whitespace() {
    // The code is the first whitespace-delimited token: a tab ends it too.
    let mut text = full_font_text(1);
    text.push_str("0x102\tname of the glyph\nT@@\n");
    let font = FIGfont::from_content(&text).unwrap();
    assert_eq!(font.fonts.get(&0x102).unwrap().characters, vec!["T".to_string()]);
}

#[test]
fn single_row_glyph_strips_doubled_terminator() {
    // Even a glyph of height 1 carries the doubled terminator on its only
    // row, and both characters are stripped.
    let font = FIGfont::from_content("flf2a$ 1 1 4 -1 0\nab@@\n").unwrap();
    assert_eq!(font.fonts.get(&32).unwrap().characters, vec!["ab".to_string()]);
}

#[test]
fn codetag_bad_code_fails() {
    let mut text = full_font_text(1);
    text.push_str("zebra bad code\nz@@\n");
    assert!(FIGfont::from_content(&text).is_err());
}

#[test]
fn codetag_overwrites_required_glyph() {
    // Last write wins on a code-point collision.
    let mut text = full_font_text(1);
    text.push_str("66 redefines B\n*@@\n");
    let font = FIGfont::from_content(&text).unwrap();
    assert_eq!(font.fonts.get(&66).unwrap().characters, vec!["*".to_string()]);
}

#[test]
fn standard_font_parses() {
    let font = FIGfont::standard().unwrap();
    assert_eq!(font.header_line.signature, "flf2a");
    assert_eq!(font.header_line.height, 3);
    assert_eq!(font.fonts.len(), 102);
}

#[test]
fn standard_font_converts_hi() {
    let font = FIGfont::standard().unwrap();
    let figure = font.convert("Hi").unwrap();
    assert_eq!(figure.characters.len(), 2);
    let height = font.header_line.height as u32;
    assert_eq!(figure.height, height);
    for glyph in &figure.characters {
        assert_eq!(glyph.height, height);
        assert_eq!(glyph.characters.len(), height as usize);
    }
    let rendered = figure.render();
    assert_eq!(rendered, "+-++-+\n|H||i|\n+-++-+\n");
    assert_eq!(rendered.lines().count(), height as usize);
}

#[test]
fn standard_font_space_uses_hardblank() {
    let font = FIGfont::standard().unwrap();
    let figure = font.convert(" ").unwrap();
    assert_eq!(figure.render(), "+-+\n| |\n+-+\n");
}

#[test]
fn header_number_overflowing_i32_fails() {
    assert!(FIGfont::from_content("flf2a$ 2147483648 1 4 -1 0\nA@@\n").is_err());
}

#[test]
fn header_accepts_plus_signs() {
    let font = FIGfont::from_content("flf2a$ +1 1 4 -1 +0\nA@@\n").unwrap();
    assert_eq!(font.header_line.height, 1);
    assert_eq!(font.header_line.comment_lines, 0);
}

#[test]
fn crlf_line_endings_are_accepted() {
    let font = FIGfont::from_content("flf2a$ 1 1 4 -1 0\r\nA@@\r\n").unwrap();
    let glyph = font.fonts.get(&32).unwrap();
    assert_eq!(glyph.characters, vec!["A".to_string()]);
}

#[test]
fn codetag_bare_zero_fails() {
    // A lone "0" selects the octal radix and leaves no digits to read.
    let mut text = full_font_text(1);
    text.push_str("0 zero\nz@@\n");
    assert!(FIGfont::from_content(&text).is_err());
}

#[test]
fn link_in_bio_decorates_non_spaces() {
    assert_eq!(figlet::link_in_bio("ab c"), "\u{2591}a\u{2591}b \u{2591}c");
    assert_eq!(figlet::link_in_bio(""), "");
    assert_eq!(figlet::link_in_bio("   "), "   ");
}
