//! Tests for the container-backed paths: presentation and word-processing
//! archives built in memory, and the malformed-archive behavior.

use std::io::Cursor;
use std::io::Write;
use markitup::errors::ConvertError;

fn build_zip(entries: &[(&str, &[u8])]) -> Vec<u8> {
    let mut w = zip::ZipWriter::new(Cursor::new(Vec::new()));
    let options = zip::write::SimpleFileOptions::default();
    for (name, data) in entries {
        w.start_file(*name, options).unwrap();
        w.write_all(data).unwrap();
    }
    w.finish().unwrap().into_inner()
}

fn png_bytes() -> Vec<u8> {
    let mut bytes = vec![0x89u8, 0x50, 0x4E, 0x47, 0x0D, 0x0A, 0x1A, 0x0A];
    bytes.extend_from_slice(&[0u8; 8]);
    bytes
}

fn mask_pic_names(s: &str) -> String {
    // Replaces every digit run following "pic-" with "N", so that outputs
    // from different clock readings compare equal.
    let mut out = String::new();
    let chars: Vec<char> = s.chars().collect();
    let mut i = 0;
    while i < chars.len() {
        out.push(chars[i]);
        let here: String = chars[i.saturating_sub(3)..=i].iter().collect();
        i += 1;
        if here == "pic-" {
            out.push('N');
            while i < chars.len() && (chars[i].is_ascii_digit() || chars[i] == '-') {
                i += 1;
            }
        }
    }
    out
}

const SLIDE_XML: &str = "<p:sld>\
<p:txBody>\
<a:p><a:r><a:t>Hello Title</a:t></a:r></a:p>\
<a:p><a:r><a:t>This is a body sentence that ends with a period.</a:t></a:r></a:p>\
</p:txBody>\
<a:tbl>\
<a:tr><a:tc><a:t>h1</a:t></a:tc><a:tc><a:t>h2</a:t></a:tc></a:tr>\
<a:tr><a:tc><a:t>v1</a:t></a:tc><a:tc><a:t>v2</a:t></a:tc></a:tr>\
</a:tbl>\
</p:sld>";

#[test]
fn pptx_slide_text_and_table() {
    let bytes = build_zip(&[("ppt/slides/slide1.xml", SLIDE_XML.as_bytes())]);
    let md = markitup::pptx::run(&bytes).unwrap();
    assert!(md.starts_with("# PowerPoint Presentation\n\n## Slide 1\n\n"));
    assert!(md.contains("### Hello Title\n"));
    assert!(md.contains("- This is a body sentence that ends with a period.\n"));
    assert!(md.contains("| h1 | h2 |\n|---|---|\n| v1 | v2 |\n"));
    assert!(md.ends_with("\n\n---\n\n"));
}

#[test]
fn pptx_blip_embeds_media() {
    let slide = "<p:sld><a:blip r:embed=\"rId1\"></a:blip></p:sld>";
    let bytes = build_zip(&[
        ("ppt/media/image1.png", &png_bytes()),
        ("ppt/slides/slide1.xml", slide.as_bytes()),
    ]);
    let md = markitup::pptx::run(&bytes).unwrap();
    assert!(md.contains("](data:image/png;base64,"));
    assert!(md.contains("![pic-"));
}

#[test]
fn pptx_blip_without_media_is_placeholder() {
    let slide = "<p:sld><a:blip r:embed=\"rId9\"></a:blip></p:sld>";
    let bytes = build_zip(&[("ppt/slides/slide1.xml", slide.as_bytes())]);
    let md = markitup::pptx::run(&bytes).unwrap();
    assert!(md.contains("![Image not found](rId9)"));
}

#[test]
fn pptx_numbers_slides_in_order() {
    let bytes = build_zip(&[
        ("ppt/slides/slide1.xml", SLIDE_XML.as_bytes()),
        ("ppt/slides/slide2.xml", "<p:sld></p:sld>".as_bytes()),
    ]);
    let md = markitup::pptx::run(&bytes).unwrap();
    assert!(md.contains("## Slide 1\n"));
    assert!(md.contains("## Slide 2\n"));
}

#[test]
fn pptx_malformed_slide_is_isolated() {
    let bytes = build_zip(&[
        ("ppt/slides/slide1.xml", "<p:sld><a:p></wrong></p:sld>".as_bytes()),
        ("ppt/slides/slide2.xml", SLIDE_XML.as_bytes()),
    ]);
    let md = markitup::pptx::run(&bytes).unwrap();
    // The malformed slide keeps only its frame; the next still converts.
    assert!(md.contains("## Slide 1\n\n\n\n---\n\n"));
    assert!(md.contains("### Hello Title\n"));
}

#[test]
fn pptx_malformed_archive_is_container_error() {
    let bytes = b"PK\x03\x04 this is not a valid archive at all".to_vec();
    let r = markitup::pptx::run(&bytes);
    assert!(matches!(r, Err(ConvertError::Container(_))));
}

#[test]
fn pptx_saved_mode_references_written_files() {
    let slide = "<p:sld><a:blip r:embed=\"rId1\"></a:blip></p:sld>";
    let media = png_bytes();
    let bytes = build_zip(&[
        ("ppt/media/image1.png", &media),
        ("ppt/slides/slide1.xml", slide.as_bytes()),
    ]);
    let (md, saved) = markitup::pptx::run_with_options(
        &bytes,
        markitup::image::ImageProcessingMode::SaveToFile,
        "shot",
    )
    .unwrap();
    assert!(md.contains("![shot](shot.png)"));
    assert_eq!(saved.len(), 1);
    assert_eq!(saved[0].0, "shot.png");
    assert_eq!(saved[0].1, media);
}

#[test]
fn pptx_conversion_is_repeatable() {
    let slide = "<p:sld><p:txBody><a:p><a:r><a:t>Stable</a:t></a:r></a:p></p:txBody>\
<a:blip r:embed=\"rId1\"></a:blip></p:sld>";
    let bytes = build_zip(&[
        ("ppt/media/image1.png", &png_bytes()),
        ("ppt/slides/slide1.xml", slide.as_bytes()),
    ]);
    let first = markitup::pptx::run(&bytes).unwrap();
    let second = markitup::pptx::run(&bytes).unwrap();
    assert_eq!(mask_pic_names(&first), mask_pic_names(&second));
}

const CONTENT_TYPES: &str = "<Types xmlns=\"http://schemas.openxmlformats.org/package/2006/content-types\"></Types>";
const RELS: &str = "<Relationships xmlns=\"http://schemas.openxmlformats.org/package/2006/relationships\"></Relationships>";

fn build_docx(document: &str) -> Vec<u8> {
    build_zip(&[
        ("[Content_Types].xml", CONTENT_TYPES.as_bytes()),
        ("_rels/.rels", RELS.as_bytes()),
        ("word/document.xml", document.as_bytes()),
    ])
}

#[test]
fn docx_styles_and_sizes_classify_headings() {
    let document = "<w:document><w:body>\
<w:p><w:pPr><w:pStyle w:val=\"Heading1\"/></w:pPr><w:r><w:t>Top title</w:t></w:r></w:p>\
<w:p><w:r><w:rPr><w:b/><w:sz w:val=\"40\"/></w:rPr><w:t>Sized line</w:t></w:r></w:p>\
<w:p><w:r><w:t>Plain paragraph text follows here.</w:t></w:r></w:p>\
</w:body></w:document>";
    let md = markitup::docx::run(&build_docx(document)).unwrap();
    assert!(md.starts_with("# Document\n\n"));
    assert!(md.contains("# Top title\n\n"));
    // 40 half-points is 20pt, which maps to a level-one heading.
    assert!(md.contains("# Sized line\n\n"));
    assert!(md.contains("Plain paragraph text follows here.\n\n"));
}

#[test]
fn docx_style_outranks_bold_and_size() {
    // An explicit level-two style with bold 20pt runs still renders as a
    // level-two heading.
    let document = "<w:document><w:body>\
<w:p><w:pPr><w:pStyle w:val=\"Heading2\"/></w:pPr>\
<w:r><w:rPr><w:b/><w:sz w:val=\"40\"/></w:rPr><w:t>Quarterly results</w:t></w:r></w:p>\
</w:body></w:document>";
    let md = markitup::docx::run(&build_docx(document)).unwrap();
    assert!(md.contains("## Quarterly results\n\n"));
    assert!(!md.contains("### Quarterly results"));
}

#[test]
fn docx_tables_render_with_first_row_header() {
    let document = "<w:document><w:body>\
<w:tbl>\
<w:tblGrid><w:gridCol w:w=\"100\"/></w:tblGrid>\
<w:tr><w:tc><w:p><w:r><w:t>c1</w:t></w:r></w:p></w:tc><w:tc><w:p><w:r><w:t>c2</w:t></w:r></w:p></w:tc></w:tr>\
<w:tr><w:tc><w:p><w:r><w:t>d1</w:t></w:r></w:p></w:tc><w:tc><w:p><w:r><w:t>d2</w:t></w:r></w:p></w:tc></w:tr>\
</w:tbl>\
</w:body></w:document>";
    let md = markitup::docx::run(&build_docx(document)).unwrap();
    assert!(md.contains("| c1 | c2 |\n|---|---|\n| d1 | d2 |\n"));
}

#[test]
fn docx_saved_mode_references_the_written_file() {
    let document = "<w:document><w:body>\
<w:p><w:r><w:drawing></w:drawing></w:r></w:p>\
</w:body></w:document>";
    let media = png_bytes();
    let bytes = build_zip(&[
        ("[Content_Types].xml", CONTENT_TYPES.as_bytes()),
        ("_rels/.rels", RELS.as_bytes()),
        ("word/document.xml", document.as_bytes()),
        ("word/media/image1.png", &media),
    ]);
    let (md, saved) = markitup::docx::run_with_options(
        &bytes,
        markitup::image::ImageProcessingMode::SaveToFile,
        "figure",
    )
    .unwrap();
    assert!(md.contains("![figure](figure.png)"));
    let (filename, payload) = saved.unwrap();
    assert_eq!(filename, "figure.png");
    assert_eq!(payload, media);
}

#[test]
fn docx_base64_mode_returns_no_file() {
    let document = "<w:document><w:body>\
<w:p><w:r><w:t>No drawings here at all.</w:t></w:r></w:p>\
</w:body></w:document>";
    let (md, saved) = markitup::docx::run_with_options(
        &build_docx(document),
        markitup::image::ImageProcessingMode::Base64,
        "figure",
    )
    .unwrap();
    assert!(md.contains("No drawings here at all."));
    assert!(saved.is_none());
}

#[test]
fn docx_malformed_archive_is_container_error() {
    let r = markitup::docx::run(b"PK\x03\x04broken");
    assert!(matches!(r, Err(ConvertError::Container(_))));
}

#[test]
fn docx_unparsable_document_is_parse_error() {
    let md = markitup::docx::run(&build_docx("<w:document><w:body></w:nope>"));
    assert!(matches!(md, Err(ConvertError::DocumentParse(_))));
}
