use hexane::ocr::tesseract_tsv_to_text;

const HEADER: &str =
    "level\tpage_num\tblock_num\tpar_num\tline_num\tword_num\tleft\ttop\twidth\theight\tconf\ttext";

fn row(level: u32, left: u32, top: u32, width: u32, text: &str) -> String {
    format!("{level}\t1\t1\t1\t1\t1\t{left}\t{top}\t{width}\t20\t96\t{text}")
}

#[test]
fn layout_empty_table_yields_empty_text() {
    let input = format!("{HEADER}\n");
    assert_eq!(tesseract_tsv_to_text(&input), "");
}

#[test]
fn layout_no_level_column_yields_empty_text() {
    assert_eq!(tesseract_tsv_to_text(""), "");
    assert_eq!(tesseract_tsv_to_text("just some text"), "");
}

#[test]
fn layout_single_token_is_its_text_with_no_leading_spaces() {
    let input = format!("{HEADER}\n{}", row(5, 200, 100, 50, "Hello"));
    assert_eq!(tesseract_tsv_to_text(&input), "Hello");
}

#[test]
fn layout_two_tokens_one_space() {
    // Gap calibration: second token's left edge (60) minus the first token's
    // left edge (0) and character count (2) gives 58, so one emitted space
    // stands for 57 pixels; the 10-pixel gap yields a single space.
    let input = format!(
        "{HEADER}\n{}\n{}",
        row(5, 0, 100, 50, "ab"),
        row(5, 60, 100, 30, "cd")
    );
    assert_eq!(tesseract_tsv_to_text(&input), "ab cd");
}

#[test]
fn layout_wide_gap_many_spaces() {
    // One space stands for 3 pixels (gap 5 minus 1 char, minus one); the
    // second gap of 30 pixels becomes 10 spaces.
    let input = format!(
        "{HEADER}\n{}\n{}\n{}",
        row(5, 0, 100, 4, "x"),
        row(5, 9, 100, 4, "y"),
        row(5, 43, 100, 4, "z")
    );
    // Calibration pairs: (9 - 0 - 1) = 8 and (43 - 9 - 1) = 33; the minimum
    // is 8, so the unit is 7. First gap: (9 - 4) / 7 -> 1 space. Second gap:
    // (43 - 13) / 7 = 4 spaces (visual), accumulated cursor agrees closely.
    assert_eq!(tesseract_tsv_to_text(&input), "x y    z");
}

#[test]
fn layout_line_break_on_wraparound() {
    // The second token lies to the left of the cursor and below the first:
    // a new line starts, indented by the minimum single space.
    let input = format!(
        "{HEADER}\n{}\n{}",
        row(5, 50, 0, 100, "ab"),
        row(5, 0, 50, 20, "cd")
    );
    assert_eq!(tesseract_tsv_to_text(&input), "ab\n cd");
}

#[test]
fn layout_skips_aggregate_and_blank_rows() {
    let input = format!(
        "{HEADER}\n{}\n{}\n{}",
        row(4, 0, 0, 400, "ignored"),
        row(5, 0, 0, 50, "kept"),
        row(5, 300, 0, 10, "  ")
    );
    assert_eq!(tesseract_tsv_to_text(&input), "kept");
}

#[test]
fn layout_rerun_is_identical() {
    let input = format!(
        "{HEADER}\n{}\n{}\n{}",
        row(5, 0, 0, 50, "one"),
        row(5, 60, 0, 50, "two"),
        row(5, 10, 40, 50, "three")
    );
    let first = tesseract_tsv_to_text(&input);
    let second = tesseract_tsv_to_text(&input);
    assert_eq!(first, second);
}

#[test]
fn layout_drift_correction_prefers_accumulated_cursor() {
    // The first token is wide but short in characters, so the accumulated
    // cursor falls far behind the visual one; at the last token both space
    // estimates are large and the accumulated estimate wins.
    let input = format!(
        "{HEADER}\n{}\n{}\n{}\n{}",
        row(5, 0, 0, 100, "ab"),
        row(5, 104, 0, 4, "cd"),
        row(5, 112, 0, 4, "ef"),
        row(5, 160, 0, 4, "gh")
    );
    // Calibration: the tightest pair gives 112 - 104 - 2 = 6, so the unit is
    // 5. Before "gh" the visual estimate is (160 - 116) / 5 = 8 spaces and
    // the accumulated one (160 - 40) / 5 = 24; both are large and the
    // accumulated cursor (40) trails the visual one (116), so 24 spaces are
    // emitted.
    let expected = format!("ab cd ef{}gh", " ".repeat(24));
    assert_eq!(tesseract_tsv_to_text(&input), expected);
}

#[test]
fn layout_malformed_number_skips_row() {
    let input = format!(
        "{HEADER}\n5\t1\t1\t1\t1\t1\tnotanumber\t0\t50\t20\t96\tbad\n{}",
        row(5, 0, 0, 50, "good")
    );
    assert_eq!(tesseract_tsv_to_text(&input), "good");
}
