//! Unit tests for the pure core: heading classification, table synthesis,
//! image reference rendering, and the spreadsheet adapter.

use markitup::errors::ConvertError;
use markitup::heading::{check_style_for_heading, determine_heading_status, heading_line, is_title_text};
use markitup::image::{image_markdown_base64, run_with_mode, saved_image_reference, timestamp_name, ImageProcessingMode};
use markitup::table::format_table_as_markdown;
use markitup::xlsx::{sheets_markdown, sheets_to_csv, worksheet_to_csv_string, Xlsx2CsvConfig, Xlsx2CsvResult};

fn rows_of(data: &[&[&str]]) -> Vec<Vec<String>> {
    data.iter().map(|r| r.iter().map(|c| c.to_string()).collect()).collect()
}

#[test]
fn test_config_default() {
    let config = Xlsx2CsvConfig::default();
    assert_eq!(config.delimiter, b',');
    assert_eq!(config.use_header, false);
}

#[test]
fn table_round_trip() {
    let rows = rows_of(&[&["a", "b"], &["1", "2"], &["3", "4"]]);
    let md = format_table_as_markdown(&rows);
    assert_eq!(md, "| a | b |\n|---|---|\n| 1 | 2 |\n| 3 | 4 |\n");
}

#[test]
fn table_empty_renders_empty() {
    let rows: Vec<Vec<String>> = Vec::new();
    assert_eq!(format_table_as_markdown(&rows), "");
}

#[test]
fn table_ragged_rows_render_as_given() {
    let rows = rows_of(&[&["h"], &["1", "2"]]);
    assert_eq!(format_table_as_markdown(&rows), "| h |\n|---|\n| 1 | 2 |\n");
}

#[test]
fn style_heading_levels() {
    assert_eq!(check_style_for_heading("Heading2"), Some((true, 2)));
    assert_eq!(check_style_for_heading("heading"), Some((true, 1)));
    assert_eq!(check_style_for_heading("Title"), Some((true, 1)));
    assert_eq!(check_style_for_heading("MySubtitleStyle"), Some((true, 2)));
    assert_eq!(check_style_for_heading("PageHeader"), Some((true, 3)));
    assert_eq!(check_style_for_heading("Header4"), Some((true, 4)));
    assert_eq!(check_style_for_heading("BodyText"), None);
}

#[test]
fn style_wins_over_size_and_bold() {
    // An explicit level-two style with bold 20pt text still classifies as
    // level two.
    let r = determine_heading_status(true, 2, true, Some(40), "Quarterly results");
    assert_eq!(r, (true, 2));
}

#[test]
fn size_thresholds_map_to_levels() {
    assert_eq!(determine_heading_status(false, 1, false, Some(36), "Big"), (true, 1));
    assert_eq!(determine_heading_status(false, 1, false, Some(32), "Big"), (true, 2));
    assert_eq!(determine_heading_status(false, 1, false, Some(28), "Big"), (true, 3));
    assert_eq!(determine_heading_status(false, 1, false, Some(26), "Big"), (true, 4));
    assert_eq!(determine_heading_status(false, 1, false, Some(24), "Big"), (true, 5));
    assert_eq!(determine_heading_status(false, 1, false, Some(23), "Small"), (false, 1));
}

#[test]
fn sized_text_ending_in_period_falls_back() {
    // A qualifying size whose text ends in a period falls through to the
    // bold heuristic, which also rejects it.
    let r = determine_heading_status(false, 1, false, Some(36), "A sentence.");
    assert_eq!(r, (false, 1));
}

#[test]
fn bold_heuristic_buckets_by_length() {
    assert_eq!(determine_heading_status(false, 1, true, None, "Short title"), (true, 2));
    let medium = "A somewhat longer heading text here";
    assert_eq!(determine_heading_status(false, 1, true, None, medium), (true, 3));
    let long = "This bold line is noticeably longer than fifty characters in total";
    assert_eq!(determine_heading_status(false, 1, true, None, long), (true, 4));
    assert_eq!(determine_heading_status(false, 1, true, None, "Ends badly."), (false, 1));
    assert_eq!(determine_heading_status(false, 1, true, None, "123 456"), (false, 1));
    assert_eq!(determine_heading_status(false, 1, false, None, "Not bold"), (false, 1));
}

#[test]
fn heading_line_clamps_level() {
    assert_eq!(heading_line(2, "  Title  "), "## Title");
    assert_eq!(heading_line(0, "T"), "# T");
    assert_eq!(heading_line(9, "T"), "###### T");
}

#[test]
fn title_text_rules() {
    assert!(is_title_text("A slide title"));
    assert!(!is_title_text("This one ends with a period."));
    assert!(!is_title_text("What about questions?"));
    assert!(!is_title_text("two\nlines"));
    let long = "x".repeat(120);
    assert!(!is_title_text(&long));
}

#[test]
fn base64_image_markdown_exact() {
    let bytes = vec![1u8, 2u8, 3u8];
    let md = image_markdown_base64(&bytes, "name");
    assert_eq!(md, "![name](data:image/jpeg;base64,AQID)");
}

#[test]
fn sniffed_png_is_reported() {
    let mut bytes = vec![0x89u8, 0x50, 0x4E, 0x47, 0x0D, 0x0A, 0x1A, 0x0A];
    bytes.extend_from_slice(&[0u8; 8]);
    let md = image_markdown_base64(&bytes, "n");
    assert!(md.starts_with("![n](data:image/png;base64,"));
}

#[test]
fn saved_image_reference_exact() {
    let mut bytes = vec![0x89u8, 0x50, 0x4E, 0x47, 0x0D, 0x0A, 0x1A, 0x0A];
    bytes.extend_from_slice(&[0u8; 8]);
    let (filename, md) = saved_image_reference(&bytes, "pic-7");
    assert_eq!(filename, "pic-7.png");
    assert_eq!(md, "![pic-7](pic-7.png)");
}

#[test]
fn timestamp_names() {
    assert_eq!(timestamp_name(0), "pic-0");
    assert_eq!(timestamp_name(1730000000), "pic-1730000000");
    assert_eq!(timestamp_name(-5), "pic--5");
}

#[test]
fn empty_image_stream_is_rejected() {
    let bytes: Vec<u8> = Vec::new();
    let r = run_with_mode(&bytes, ImageProcessingMode::Base64);
    assert!(matches!(r, Err(ConvertError::UnsupportedFormat(_))));
}

#[test]
fn image_run_shapes_output() {
    let bytes = vec![1u8, 2u8, 3u8];
    let md = markitup::image::run(&bytes).unwrap();
    assert!(md.starts_with("![pic-"));
    assert!(md.contains("](data:image/jpeg;base64,AQID)"));
}

#[test]
fn error_messages_name_the_stage() {
    let e = ConvertError::Container("bad archive".to_string());
    assert_eq!(e.message(), "container error: bad archive");
    let e = ConvertError::UnsupportedFormat("application/x-thing".to_string());
    assert_eq!(e.message(), "unsupported format: application/x-thing");
}

#[test]
fn worksheet_rows_encode_as_csv() {
    let grid = rows_of(&[&["a", "b"], &["1", "2"]]);
    let cfg = Xlsx2CsvConfig::default();
    assert_eq!(worksheet_to_csv_string(&grid, &cfg).unwrap(), "a,b\n1,2\n");
}

#[test]
fn worksheet_quotes_fields_with_delimiters() {
    let grid = rows_of(&[&["a,b", "c"]]);
    let cfg = Xlsx2CsvConfig::default();
    assert_eq!(worksheet_to_csv_string(&grid, &cfg).unwrap(), "\"a,b\",c\n");
}

#[test]
fn worksheet_header_sizing_cuts_columns() {
    let grid = rows_of(&[&["a", "", "c"], &["1", "2", "3"]]);
    let cfg = Xlsx2CsvConfig { delimiter: b',', use_header: true };
    assert_eq!(worksheet_to_csv_string(&grid, &cfg).unwrap(), "a\n1\n");
}

#[test]
fn sheets_to_csv_pairs_names_with_data() {
    let names = vec!["First".to_string(), "Second".to_string()];
    let grids = vec![rows_of(&[&["a"]]), rows_of(&[&["b"]])];
    let result = sheets_to_csv(names, grids, None).unwrap();
    assert_eq!(result.sheet_names, vec!["First", "Second"]);
    assert_eq!(result.csv_data, vec!["a\n", "b\n"]);
}

#[test]
fn sheets_to_csv_rejects_empty() {
    let r = sheets_to_csv(Vec::new(), Vec::new(), None);
    assert!(matches!(r, Err(ConvertError::DocumentParse(_))));
}

#[test]
fn result_lookup_by_name_and_first() {
    let result = Xlsx2CsvResult {
        sheet_names: vec!["A".to_string(), "B".to_string()],
        csv_data: vec!["a\n".to_string(), "b\n".to_string()],
    };
    assert_eq!(result.get_by_name("B"), Some(&"b\n".to_string()));
    assert_eq!(result.get_by_name("C"), None);
    assert_eq!(result.first(), Some(&"a\n".to_string()));
    let empty = Xlsx2CsvResult { sheet_names: Vec::new(), csv_data: Vec::new() };
    assert_eq!(empty.first(), None);
}

#[test]
fn sheets_markdown_frames_each_sheet() {
    let names = vec!["S1".to_string(), "S2".to_string()];
    let csvs = vec!["a,b\n1,2\n".to_string(), "x\n9\n".to_string()];
    let md = sheets_markdown(&names, &csvs).unwrap();
    assert_eq!(
        md,
        "## Sheet: S1\n\n| a | b |\n| --- | --- |\n| 1 | 2 |\n\n\n---\n\n## Sheet: S2\n\n| x |\n| --- |\n| 9 |\n"
    );
}

#[test]
fn image_path_relocation_rewrites_references() {
    let md = "before ![x](out/imgs) after ![y](out/imgs) end";
    let adjusted = markitup::image::adjust_image_path_in_markdown(
        md,
        "out/imgs",
        &Some("out/doc.md".to_string()),
    );
    assert_eq!(adjusted, "before ![x](./imgs) after ![y](./imgs) end");
}

#[test]
fn image_path_relocation_keeps_unrelated_paths() {
    let md = "![x](elsewhere/imgs)";
    let adjusted = markitup::image::adjust_image_path_in_markdown(
        md,
        "elsewhere/imgs",
        &Some("out/doc.md".to_string()),
    );
    assert_eq!(adjusted, md);
    let untouched =
        markitup::image::adjust_image_path_in_markdown(md, "elsewhere/imgs", &None);
    assert_eq!(untouched, md);
}

#[test]
fn settings_default_uses_base64_mode() {
    let s = markitup::config::Settings::default();
    assert!(matches!(s.placement_mode(), ImageProcessingMode::Base64));
    let s2 = markitup::config::Settings { image_path: "imgs".to_string(), ..Default::default() };
    assert!(matches!(s2.placement_mode(), ImageProcessingMode::SaveToFile));
}
