//! Tests for the format dispatcher: sniffing, extension fallback, routing,
//! and the CSV and HTML routes through `convert`.

use std::io::Cursor;
use std::io::Write;
use markitup::errors::ConvertError;
use markitup::{convert, get_file_type_from_extension, resolve_mime, route_of_mime, ConverterFile, Route};

fn empty_zip() -> Vec<u8> {
    let w = zip::ZipWriter::new(Cursor::new(Vec::new()));
    w.finish().unwrap().into_inner()
}

fn file(path: Option<&str>, bytes: &[u8]) -> ConverterFile {
    ConverterFile { file_path: path.map(|p| p.to_string()), file_stream: bytes.to_vec() }
}

#[test]
fn extension_mapping_is_case_insensitive() {
    let p = Some("dir/Report.DOCX".to_string());
    assert_eq!(
        get_file_type_from_extension(&p),
        Some("application/vnd.openxmlformats-officedocument.wordprocessingml.document")
    );
    let q = Some("notes.htm".to_string());
    assert_eq!(get_file_type_from_extension(&q), Some("text/html"));
    let none = Some("no_extension".to_string());
    assert_eq!(get_file_type_from_extension(&none), None);
    assert_eq!(get_file_type_from_extension(&None), None);
}

#[test]
fn routes_cover_known_mimes() {
    assert_eq!(route_of_mime("audio/wav"), Route::Wav);
    assert_eq!(route_of_mime("text/csv"), Route::Csv);
    assert_eq!(route_of_mime("application/csv"), Route::Csv);
    assert_eq!(route_of_mime("image/png"), Route::Image);
    assert_eq!(route_of_mime("text/html"), Route::Html);
    assert_eq!(route_of_mime("application/x-mystery"), Route::Unsupported);
}

#[test]
fn zip_sniff_with_pptx_path_routes_to_presentation() {
    // A ZIP-sniffed buffer with a presentation path converts through the
    // presentation extractor, not to an unsupported-format error.
    let f = file(Some("deck.pptx"), &empty_zip());
    let md = convert(f).unwrap();
    assert_eq!(md, "# PowerPoint Presentation\n\n");
}

#[test]
fn zip_sniff_with_pptx_path_resolves_presentation_mime() {
    let stream = empty_zip();
    let path = Some("deck.pptx".to_string());
    let mime = resolve_mime(&stream, &path).unwrap();
    assert_eq!(mime, "application/vnd.openxmlformats-officedocument.presentationml.presentation");
    assert_eq!(route_of_mime(&mime), Route::Pptx);
}

#[test]
fn malformed_archive_yields_container_error() {
    let f = file(Some("broken.docx"), b"PK\x03\x04garbage bytes here");
    let r = convert(f);
    assert!(matches!(r, Err(ConvertError::Container(_))));
}

#[test]
fn unknown_bytes_are_unsupported() {
    let f = file(None, &[0u8, 1u8, 2u8, 3u8]);
    let r = convert(f);
    assert!(matches!(r, Err(ConvertError::UnsupportedFormat(_))));
}

#[test]
fn csv_route_renders_table() {
    // Content sniffing recognizes no plain CSV text, so the dispatcher
    // cannot resolve it; the CSV converter itself renders the table.
    let f = file(Some("data.csv"), b"a,b\n1,2\n3,4\n");
    let r = convert(f);
    assert!(matches!(r, Err(ConvertError::UnsupportedFormat(_))));
    let md = markitup::csvmd::run(b"a,b\n1,2\n3,4\n").unwrap();
    assert_eq!(md, "| a | b |\n| --- | --- |\n| 1 | 2 |\n| 3 | 4 |\n");
}

#[test]
fn csv_cells_are_trimmed() {
    let md = markitup::csvmd::run(b"a , b\n 1 ,2\n").unwrap();
    assert_eq!(md, "| a | b |\n| --- | --- |\n| 1 | 2 |\n");
}

#[test]
fn csv_malformed_record_is_rejected() {
    let r = markitup::csvmd::run(b"a,b\n\"unterminated\n");
    assert!(matches!(r, Err(ConvertError::DocumentParse(_))));
}

#[test]
fn html_route_translates_markup() {
    let f = file(Some("page.html"), b"<html><body><h1>Title</h1><p>Body</p></body></html>");
    let md = convert(f).unwrap();
    assert!(md.contains("Title"));
    assert!(md.contains("Body"));
}

#[test]
fn slide_tokenizer_rejects_malformed_markup() {
    let r = markitup::pptx::tokenize_slide(b"<a:p></a:b>".to_vec());
    assert!(matches!(r, Err(ConvertError::SlideParse(_))));
}

#[test]
fn html_translation_is_not_the_identity() {
    let md = markitup::htmlmd::run(b"<h1>Title</h1>").unwrap();
    assert!(md.contains("Title"));
    assert!(!md.contains("<h1>"));
}

#[test]
fn html_invalid_utf8_is_rejected() {
    let r = markitup::htmlmd::run(&[0xffu8, 0xfe, 0x3c]);
    assert!(matches!(r, Err(ConvertError::DocumentParse(_))));
}

#[test]
fn wav_route_defers_to_collaborator() {
    // A RIFF/WAVE header sniffs as audio; the library reports it as a
    // route it does not drive itself.
    let mut wav = Vec::new();
    wav.extend_from_slice(b"RIFF");
    wav.extend_from_slice(&36u32.to_le_bytes());
    wav.extend_from_slice(b"WAVE");
    let f = file(Some("sound.wav"), &wav);
    let r = convert(f);
    assert!(matches!(r, Err(ConvertError::UnsupportedFormat(_))));
}

#[test]
fn wav_error_carries_resolved_mime() {
    let mut wav = Vec::new();
    wav.extend_from_slice(b"RIFF");
    wav.extend_from_slice(&36u32.to_le_bytes());
    wav.extend_from_slice(b"WAVE");
    let r = convert(file(Some("sound.wav"), &wav));
    match r {
        Err(ConvertError::UnsupportedFormat(d)) => assert!(d.starts_with("audio/")),
        _ => panic!("expected an unsupported-format error"),
    }
}

#[test]
fn xlsx_route_error_carries_resolved_mime() {
    // An empty ZIP with a spreadsheet extension resolves to the
    // spreadsheet type, whose decoding needs the external reader.
    let r = convert(file(Some("book.xlsx"), &empty_zip()));
    match r {
        Err(ConvertError::UnsupportedFormat(d)) => {
            assert_eq!(d, "application/vnd.openxmlformats-officedocument.spreadsheetml.sheet")
        }
        _ => panic!("expected an unsupported-format error"),
    }
}

#[test]
fn conversion_without_media_is_deterministic() {
    let mut w = zip::ZipWriter::new(Cursor::new(Vec::new()));
    let options = zip::write::SimpleFileOptions::default();
    w.start_file("ppt/slides/slide1.xml", options).unwrap();
    w.write_all(b"<p:sld><p:txBody><a:p><a:r><a:t>Same</a:t></a:r></a:p></p:txBody></p:sld>")
        .unwrap();
    let bytes = w.finish().unwrap().into_inner();
    let a = convert(file(Some("deck.pptx"), &bytes)).unwrap();
    let b = convert(file(Some("deck.pptx"), &bytes)).unwrap();
    assert_eq!(a, b);
}
