//! The word-processing path: walks a parsed document tree in order,
//! classifying paragraphs as headings, rendering tables, and embedding
//! drawing images, and emits Markdown blocks separated by blank lines.

use vstd::prelude::*;
use crate::container::{collect_media, media_ok, media_view, spec_media, zip_parse, Container};
use crate::errors::ConvertError;
use crate::heading::{
    check_style_for_heading, determine_heading_status, heading_line, spec_check_style,
    spec_determine_heading, spec_heading_line,
};
use crate::image::{
    base64_of, image_markdown_base64, mime_extension, resolved_mime, saved_image_reference,
    spec_base64_image_md, spec_file_image_md, spec_timestamp_name, ImageProcessingMode,
};
use crate::table::sep_cells;
use crate::text::{
    chars_end_with, chars_of_str, ends_with, push_str_chars, spec_trim, string_from_chars,
    trim_chars,
};

verus! {

#[verifier::external_type_specification]
#[verifier::external_body]
pub struct ExDocxFile(docx_rust::DocxFile);

#[verifier::external_type_specification]
#[verifier::external_body]
pub struct ExDocx<'a>(docx_rust::Docx<'a>);

#[verifier::external_type_specification]
#[verifier::external_body]
pub struct ExBodyContent<'a>(docx_rust::document::BodyContent<'a>);

#[verifier::external_type_specification]
#[verifier::external_body]
pub struct ExParagraph<'a>(docx_rust::document::Paragraph<'a>);

#[verifier::external_type_specification]
#[verifier::external_body]
pub struct ExParagraphContent<'a>(docx_rust::document::ParagraphContent<'a>);

#[verifier::external_type_specification]
#[verifier::external_body]
pub struct ExRun<'a>(docx_rust::document::Run<'a>);

#[verifier::external_type_specification]
#[verifier::external_body]
pub struct ExRunContent<'a>(docx_rust::document::RunContent<'a>);

#[verifier::external_type_specification]
#[verifier::external_body]
pub struct ExTable<'a>(docx_rust::document::Table<'a>);

#[verifier::external_type_specification]
#[verifier::external_body]
pub struct ExTableRow<'a>(docx_rust::document::TableRow<'a>);

#[verifier::external_type_specification]
#[verifier::external_body]
pub struct ExTableRowContent<'a>(docx_rust::document::TableRowContent<'a>);

#[verifier::external_type_specification]
#[verifier::external_body]
pub struct ExTableCell<'a>(docx_rust::document::TableCell<'a>);

#[verifier::external_type_specification]
#[verifier::external_body]
pub struct ExTableCellContent<'a>(docx_rust::document::TableCellContent<'a>);

/// The model of one item inside a text run.
pub ghost enum SpecRunItem {
    /// Literal text.
    Text(Seq<char>),
    /// An embedded drawing.
    Drawing,
    /// Anything else, ignored.
    Other,
}

/// The model of one text run: its formatting signals and its items.
pub ghost struct SpecRun {
    pub bold: bool,
    pub size: Option<i64>,
    pub items: Seq<SpecRunItem>,
}

/// The model of one paragraph child.
pub ghost enum SpecParaItem {
    Run(SpecRun),
    Other,
}

/// The model of one paragraph: its explicit style, and its children.
pub ghost struct SpecPara {
    pub style: Option<Seq<char>>,
    pub items: Seq<SpecParaItem>,
}

/// The model of one table-row slot: a real cell with its paragraphs, or
/// some other content.
pub ghost enum SpecCellSlot {
    Cell(Seq<SpecPara>),
    Other,
}

/// The model of one body block.
pub ghost enum SpecBlock {
    Para(SpecPara),
    Tbl(Seq<Seq<SpecCellSlot>>),
    Other,
}

/// Whether a byte buffer opens as a word-processing container; depends on
/// the bytes alone.
pub uninterp spec fn docx_read_ok(bytes: Seq<u8>) -> bool;

/// The parsed body-block model of a word-processing container: `None` when
/// the document tree does not parse; depends on the bytes alone.
pub uninterp spec fn docx_model_of(bytes: Seq<u8>) -> Option<Seq<SpecBlock>>;

/// The body-block model an extracted file will parse to.
pub uninterp spec fn docx_file_model(f: docx_rust::DocxFile) -> Option<Seq<SpecBlock>>;

/// The body blocks a parsed document holds.
pub uninterp spec fn docx_blocks(d: docx_rust::Docx) -> Seq<SpecBlock>;

/// What one body element holds.
pub uninterp spec fn block_model(b: docx_rust::document::BodyContent) -> SpecBlock;

/// What one paragraph holds.
pub uninterp spec fn para_model(p: docx_rust::document::Paragraph) -> SpecPara;

/// What one paragraph child holds.
pub uninterp spec fn pitem_model(c: docx_rust::document::ParagraphContent) -> SpecParaItem;

/// What one run holds.
pub uninterp spec fn run_model(r: docx_rust::document::Run) -> SpecRun;

/// What one run child holds.
pub uninterp spec fn ritem_model(c: docx_rust::document::RunContent) -> SpecRunItem;

/// What one table holds.
pub uninterp spec fn table_model(t: docx_rust::document::Table) -> Seq<Seq<SpecCellSlot>>;

/// What one table row holds.
pub uninterp spec fn row_model(r: docx_rust::document::TableRow) -> Seq<SpecCellSlot>;

/// What one row slot holds.
pub uninterp spec fn rowitem_model(c: docx_rust::document::TableRowContent) -> SpecCellSlot;

/// What one table cell holds.
pub uninterp spec fn cell_model(c: docx_rust::document::TableCell) -> Seq<SpecPara>;

/// What one cell child holds.
pub uninterp spec fn cellitem_model(c: docx_rust::document::TableCellContent) -> SpecPara;

/// Relies on `docx_rust::DocxFile::from_reader`: extracts the container's
/// parts from an in-memory buffer; success and the eventual body model
/// depend on the bytes alone.
#[verifier::external_body]
fn docx_from_bytes(bytes: &Vec<u8>) -> (r: Result<docx_rust::DocxFile, String>)
    ensures
        r is Ok <==> docx_read_ok(bytes@),
        r matches Ok(f) ==> docx_file_model(f) == docx_model_of(bytes@),
{
    match docx_rust::DocxFile::from_reader(std::io::Cursor::new(bytes.clone())) {
        Ok(f) => Ok(f),
        Err(e) => Err(format!("{:?}", e)),
    }
}

/// Relies on `docx_rust::DocxFile::parse`: parses the document part into a
/// tree.
#[verifier::external_body]
fn docx_parse<'a>(f: &'a docx_rust::DocxFile) -> (r: Result<docx_rust::Docx<'a>, String>)
    ensures
        r is Ok <==> docx_file_model(*f) is Some,
        r matches Ok(d) ==> docx_blocks(d) == docx_file_model(*f).unwrap(),
{
    match f.parse() {
        Ok(d) => Ok(d),
        Err(e) => Err(format!("{:?}", e)),
    }
}

/// Relies on the `document.body.content` field chain of `docx_rust::Docx`:
/// the ordered body blocks.
#[verifier::external_body]
fn docx_body<'a>(d: &'a docx_rust::Docx<'a>) -> (r: &'a Vec<
    docx_rust::document::BodyContent<'a>,
>)
    ensures
        r@.map_values(|b: docx_rust::document::BodyContent| block_model(b)) == docx_blocks(*d),
{
    &d.document.body.content
}

/// Relies on `docx_rust::document::BodyContent`: tells a paragraph block
/// apart from the rest.
#[verifier::external_body]
fn block_as_paragraph<'a>(b: &'a docx_rust::document::BodyContent<'a>) -> (r: Option<
    &'a docx_rust::document::Paragraph<'a>,
>)
    ensures
        r is Some <==> block_model(*b) is Para,
        r matches Some(p) ==> block_model(*b) == SpecBlock::Para(para_model(*p)),
{
    match b {
        docx_rust::document::BodyContent::Paragraph(p) => Some(p),
        _ => None,
    }
}

/// Relies on `docx_rust::document::BodyContent`: tells a table block apart
/// from the rest.
#[verifier::external_body]
fn block_as_table<'a>(b: &'a docx_rust::document::BodyContent<'a>) -> (r: Option<
    &'a docx_rust::document::Table<'a>,
>)
    ensures
        r is Some <==> block_model(*b) is Tbl,
        r matches Some(t) ==> block_model(*b) == SpecBlock::Tbl(table_model(*t)),
{
    match b {
        docx_rust::document::BodyContent::Table(t) => Some(t),
        _ => None,
    }
}

/// Relies on the `property.style_id` field chain of a paragraph: its
/// explicit style name, when present.
#[verifier::external_body]
fn para_style(p: &docx_rust::document::Paragraph) -> (r: Option<String>)
    ensures
        r is Some <==> para_model(*p).style is Some,
        r matches Some(s) ==> para_model(*p).style == Some(s@),
{
    match &p.property {
        Some(pr) => pr.style_id.as_ref().map(|s| s.value.to_string()),
        None => None,
    }
}

/// Relies on the `content` field of a paragraph: its ordered children.
#[verifier::external_body]
fn para_items<'a>(p: &'a docx_rust::document::Paragraph<'a>) -> (r: &'a Vec<
    docx_rust::document::ParagraphContent<'a>,
>)
    ensures
        r@.map_values(|c: docx_rust::document::ParagraphContent| pitem_model(c)) == para_model(
            *p,
        ).items,
{
    &p.content
}

/// Relies on `docx_rust::document::ParagraphContent`: tells a run apart
/// from the other paragraph children.
#[verifier::external_body]
fn pitem_as_run<'a>(c: &'a docx_rust::document::ParagraphContent<'a>) -> (r: Option<
    &'a docx_rust::document::Run<'a>,
>)
    ensures
        r is Some <==> pitem_model(*c) is Run,
        r matches Some(rn) ==> pitem_model(*c) == SpecParaItem::Run(run_model(*rn)),
{
    match c {
        docx_rust::document::ParagraphContent::Run(rn) => Some(rn),
        _ => None,
    }
}

/// Relies on the `property.bold` field chain of a run: whether the run
/// carries an explicit bold mark.
#[verifier::external_body]
fn run_bold(r: &docx_rust::document::Run) -> (b: bool)
    ensures
        b == run_model(*r).bold,
{
    match &r.property {
        Some(pr) => pr.bold.is_some(),
        None => false,
    }
}

/// Relies on the `property.size` field chain of a run: its explicit font
/// size in half-points, when present.
#[verifier::external_body]
fn run_size(r: &docx_rust::document::Run) -> (s: Option<i64>)
    ensures
        s == run_model(*r).size,
{
    match &r.property {
        Some(pr) => pr.size.as_ref().map(|s| s.value as i64),
        None => None,
    }
}

/// Relies on the `content` field of a run: its ordered children.
#[verifier::external_body]
fn run_items<'a>(r: &'a docx_rust::document::Run<'a>) -> (items: &'a Vec<
    docx_rust::document::RunContent<'a>,
>)
    ensures
        items@.map_values(|c: docx_rust::document::RunContent| ritem_model(c)) == run_model(
            *r,
        ).items,
{
    &r.content
}

/// Relies on `docx_rust::document::RunContent`: the literal text of a text
/// child.
#[verifier::external_body]
fn ritem_as_text(c: &docx_rust::document::RunContent) -> (r: Option<String>)
    ensures
        r is Some <==> ritem_model(*c) is Text,
        r matches Some(s) ==> ritem_model(*c) == SpecRunItem::Text(s@),
{
    match c {
        docx_rust::document::RunContent::Text(t) => Some(t.text.to_string()),
        _ => None,
    }
}

/// Relies on `docx_rust::document::RunContent`: whether the child is an
/// embedded drawing.
#[verifier::external_body]
fn ritem_is_drawing(c: &docx_rust::document::RunContent) -> (r: bool)
    ensures
        r == (ritem_model(*c) is Drawing),
{
    match c {
        docx_rust::document::RunContent::Drawing(_) => true,
        _ => false,
    }
}

/// Relies on the `rows` field of a table: its ordered rows.
#[verifier::external_body]
fn table_rows<'a>(t: &'a docx_rust::document::Table<'a>) -> (r: &'a Vec<
    docx_rust::document::TableRow<'a>,
>)
    ensures
        r@.map_values(|rw: docx_rust::document::TableRow| row_model(rw)) == table_model(*t),
{
    &t.rows
}

/// Relies on the `cells` field of a table row: its ordered slots.
#[verifier::external_body]
fn row_items<'a>(r: &'a docx_rust::document::TableRow<'a>) -> (cells: &'a Vec<
    docx_rust::document::TableRowContent<'a>,
>)
    ensures
        cells@.map_values(|c: docx_rust::document::TableRowContent| rowitem_model(c)) == row_model(
            *r,
        ),
{
    &r.cells
}

/// Relies on `docx_rust::document::TableRowContent`: tells a real cell
/// apart from other row content.
#[verifier::external_body]
fn rowitem_as_cell<'a>(c: &'a docx_rust::document::TableRowContent<'a>) -> (r: Option<
    &'a docx_rust::document::TableCell<'a>,
>)
    ensures
        r is Some <==> rowitem_model(*c) is Cell,
        r matches Some(tc) ==> rowitem_model(*c) == SpecCellSlot::Cell(cell_model(*tc)),
{
    match c {
        docx_rust::document::TableRowContent::TableCell(tc) => Some(tc),
        _ => None,
    }
}

/// Relies on the `content` field of a table cell: its ordered children.
#[verifier::external_body]
fn cell_items<'a>(c: &'a docx_rust::document::TableCell<'a>) -> (r: &'a Vec<
    docx_rust::document::TableCellContent<'a>,
>)
    ensures
        r@.map_values(|cc: docx_rust::document::TableCellContent| cellitem_model(cc)) == cell_model(
            *c,
        ),
{
    &c.content
}

/// Relies on `docx_rust::document::TableCellContent`: a cell child is a
/// paragraph.
#[verifier::external_body]
fn cellitem_para<'a>(c: &'a docx_rust::document::TableCellContent<'a>) -> (r:
    &'a docx_rust::document::Paragraph<'a>)
    ensures
        para_model(*r) == cellitem_model(*c),
{
    match c {
        docx_rust::document::TableCellContent::Paragraph(p) => p,
    }
}

/// Whether a media entry name carries one of the allowed image extensions.
pub open spec fn ext_matches(name: Seq<char>) -> bool {
    ends_with(name, ".png"@) || ends_with(name, ".jpg"@) || ends_with(name, ".jpeg"@)
        || ends_with(name, ".gif"@) || ends_with(name, ".webp"@)
}

/// The first media entry with an allowed image extension, in archive
/// enumeration order.
pub open spec fn spec_find_ext(media: Seq<(Seq<char>, Seq<u8>)>) -> Option<(Seq<char>, Seq<u8>)>
    decreases media.len(),
{
    if media.len() == 0 {
        None
    } else if ext_matches(media[0].0) {
        Some(media[0])
    } else {
        spec_find_ext(media.drop_first())
    }
}

/// What every drawing in the document resolves to: no image, an inline
/// image block, or a payload that cannot be embedded (it is empty).
pub ghost enum SpecDrawing {
    NoImage,
    Md(Seq<char>),
    Bad,
}

/// The drawing resolution for a media table under one image name and
/// placement mode: inline base64 embeds the payload, saved-file placement
/// references the file the caller writes.
pub open spec fn spec_drawing(
    media: Seq<(Seq<char>, Seq<u8>)>,
    img_name: Seq<char>,
    mode: ImageProcessingMode,
) -> SpecDrawing {
    match spec_find_ext(media) {
        None => SpecDrawing::NoImage,
        Some(e) => {
            if e.1.len() == 0 {
                SpecDrawing::Bad
            } else {
                match mode {
                    ImageProcessingMode::Base64 => SpecDrawing::Md(
                        "\n\n"@ + spec_base64_image_md(
                            img_name,
                            resolved_mime(e.1),
                            base64_of(e.1),
                        ) + "\n\n"@,
                    ),
                    ImageProcessingMode::SaveToFile => SpecDrawing::Md(
                        "\n\n"@ + spec_file_image_md(
                            img_name,
                            img_name + "."@ + mime_extension(resolved_mime(e.1)),
                        ) + "\n\n"@,
                    ),
                }
            }
        },
    }
}

/// What the saved-file companion of a conversion must hold: in saved-file
/// mode with an embeddable payload, exactly that payload under the derived
/// filename; otherwise nothing.
pub open spec fn saved_file_ok(
    media: Seq<(Seq<char>, Seq<u8>)>,
    img_name: Seq<char>,
    mode: ImageProcessingMode,
    saved: Option<(String, Vec<u8>)>,
) -> bool {
    match spec_find_ext(media) {
        Some(e) => {
            if e.1.len() > 0 && (mode is SaveToFile) {
                saved matches Some(f) && f.0@ == img_name + "."@ + mime_extension(
                    resolved_mime(e.1),
                ) && f.1@ == e.1
            } else {
                saved is None
            }
        },
        None => saved is None,
    }
}

/// The drawing resolution as the converter computes it once per call.
pub enum DrawingMd {
    NoImage,
    Md(String),
    Bad,
}

impl View for DrawingMd {
    type V = SpecDrawing;

    open spec fn view(&self) -> SpecDrawing {
        match self {
            DrawingMd::NoImage => SpecDrawing::NoImage,
            DrawingMd::Md(s) => SpecDrawing::Md(s@),
            DrawingMd::Bad => SpecDrawing::Bad,
        }
    }
}

proof fn lemma_find_ext_at(media: Seq<(Seq<char>, Seq<u8>)>, k: int)
    requires
        0 <= k < media.len(),
        ext_matches(media[k].0),
        forall|j: int| 0 <= j < k ==> !ext_matches((#[trigger] media[j]).0),
    ensures
        spec_find_ext(media) == Some(media[k]),
    decreases k,
{
    if k > 0 {
        lemma_find_ext_at(media.drop_first(), k - 1);
    }
}

proof fn lemma_find_ext_none(media: Seq<(Seq<char>, Seq<u8>)>)
    requires
        forall|j: int| 0 <= j < media.len() ==> !ext_matches((#[trigger] media[j]).0),
    ensures
        spec_find_ext(media) is None,
    decreases media.len(),
{
    if media.len() > 0 {
        lemma_find_ext_none(media.drop_first());
    }
}

/// Resolves the drawing Markdown for one conversion call: the first media
/// entry with an allowed image extension renders under the given name and
/// placement mode; in saved-file mode the payload to write is returned too.
fn resolve_drawing(media: &Vec<(String, Vec<u8>)>, img_name: &str, mode: &ImageProcessingMode) -> (r: (
    DrawingMd,
    Option<(String, Vec<u8>)>,
))
    ensures
        r.0@ == spec_drawing(media_view(media@), img_name@, *mode),
        saved_file_ok(media_view(media@), img_name@, *mode, r.1),
{
    let ghost mv = media_view(media@);
    let mut k: usize = 0;
    while k < media.len()
        invariant
            0 <= k <= media@.len(),
            mv == media_view(media@),
            forall|j: int| 0 <= j < k ==> !ext_matches((#[trigger] mv[j]).0),
        decreases media@.len() - k,
    {
        let name_chars = chars_of_str(media[k].0.as_str());
        proof {
            assert(mv[k as int].0 == name_chars@);
        }
        if chars_end_with(&name_chars, ".png") || chars_end_with(&name_chars, ".jpg")
            || chars_end_with(&name_chars, ".jpeg") || chars_end_with(&name_chars, ".gif")
            || chars_end_with(&name_chars, ".webp") {
            proof {
                lemma_find_ext_at(mv, k as int);
            }
            if media[k].1.len() == 0 {
                return (DrawingMd::Bad, None);
            }
            let mut out: Vec<char> = Vec::new();
            push_str_chars(&mut out, "\n\n");
            match mode {
                ImageProcessingMode::Base64 => {
                    let img = image_markdown_base64(&media[k].1, img_name);
                    push_str_chars(&mut out, img.as_str());
                    push_str_chars(&mut out, "\n\n");
                    return (DrawingMd::Md(string_from_chars(&out)), None);
                },
                ImageProcessingMode::SaveToFile => {
                    let (filename, img) = saved_image_reference(&media[k].1, img_name);
                    push_str_chars(&mut out, img.as_str());
                    push_str_chars(&mut out, "\n\n");
                    let payload = crate::text::clone_bytes(&media[k].1);
                    return (DrawingMd::Md(string_from_chars(&out)), Some((filename, payload)));
                },
            }
        }
        k = k + 1;
    }
    proof {
        lemma_find_ext_none(mv);
    }
    (DrawingMd::NoImage, None)
}

/// The text one run contributes, given the drawing resolution: literal
/// text as-is, each drawing as its resolved block. `None` when a drawing
/// is hit while the resolution is a payload that cannot be embedded.
pub open spec fn spec_run_text(items: Seq<SpecRunItem>, dmd: SpecDrawing) -> Option<Seq<char>>
    decreases items.len(),
{
    if items.len() == 0 {
        Some(Seq::empty())
    } else {
        match spec_run_text(items.drop_last(), dmd) {
            None => None,
            Some(acc) => match items.last() {
                SpecRunItem::Text(t) => Some(acc + t),
                SpecRunItem::Drawing => match dmd {
                    SpecDrawing::NoImage => Some(acc),
                    SpecDrawing::Md(s) => Some(acc + s),
                    SpecDrawing::Bad => None,
                },
                SpecRunItem::Other => Some(acc),
            },
        }
    }
}

proof fn lemma_run_text_some(items: Seq<SpecRunItem>, dmd: SpecDrawing)
    requires
        !(dmd is Bad),
    ensures
        spec_run_text(items, dmd) is Some,
    decreases items.len(),
{
    if items.len() > 0 {
        lemma_run_text_some(items.drop_last(), dmd);
    }
}

proof fn lemma_para_scan_some(items: Seq<SpecParaItem>, dmd: SpecDrawing)
    requires
        !(dmd is Bad),
    ensures
        spec_para_scan(items, dmd) is Some,
    decreases items.len(),
{
    if items.len() > 0 {
        lemma_para_scan_some(items.drop_last(), dmd);
        match items.last() {
            SpecParaItem::Run(r) => {
                lemma_run_text_some(r.items, dmd);
            },
            SpecParaItem::Other => {
            },
        }
    }
}

proof fn lemma_blocks_md_some(blocks: Seq<SpecBlock>, i: int, acc: Seq<char>, dmd: SpecDrawing)
    requires
        0 <= i <= blocks.len(),
        !(dmd is Bad),
    ensures
        spec_blocks_md(blocks, i, acc, dmd) is Some,
    decreases blocks.len() - i,
{
    if i < blocks.len() {
        match blocks[i] {
            SpecBlock::Para(p) => {
                lemma_para_scan_some(p.items, dmd);
            },
            _ => {
            },
        }
        match spec_block_md(blocks[i], dmd) {
            Some(m) => {
                lemma_blocks_md_some(blocks, i + 1, acc + m, dmd);
            },
            None => {
            },
        }
    }
}

proof fn lemma_run_text_some_equiv(items: Seq<SpecRunItem>, dmd1: SpecDrawing, dmd2: SpecDrawing)
    requires
        (dmd1 is Bad) == (dmd2 is Bad),
    ensures
        (spec_run_text(items, dmd1) is Some) == (spec_run_text(items, dmd2) is Some),
    decreases items.len(),
{
    if items.len() > 0 {
        lemma_run_text_some_equiv(items.drop_last(), dmd1, dmd2);
    }
}

proof fn lemma_para_scan_some_equiv(items: Seq<SpecParaItem>, dmd1: SpecDrawing, dmd2: SpecDrawing)
    requires
        (dmd1 is Bad) == (dmd2 is Bad),
    ensures
        (spec_para_scan(items, dmd1) is Some) == (spec_para_scan(items, dmd2) is Some),
    decreases items.len(),
{
    if items.len() > 0 {
        lemma_para_scan_some_equiv(items.drop_last(), dmd1, dmd2);
        match items.last() {
            SpecParaItem::Run(r) => {
                lemma_run_text_some_equiv(r.items, dmd1, dmd2);
            },
            SpecParaItem::Other => {
            },
        }
    }
}

proof fn lemma_blocks_some_equiv(
    blocks: Seq<SpecBlock>,
    i: int,
    acc1: Seq<char>,
    acc2: Seq<char>,
    dmd1: SpecDrawing,
    dmd2: SpecDrawing,
)
    requires
        0 <= i <= blocks.len(),
        (dmd1 is Bad) == (dmd2 is Bad),
    ensures
        (spec_blocks_md(blocks, i, acc1, dmd1) is Some) == (spec_blocks_md(
            blocks,
            i,
            acc2,
            dmd2,
        ) is Some),
    decreases blocks.len() - i,
{
    if i < blocks.len() {
        match blocks[i] {
            SpecBlock::Para(p) => {
                lemma_para_scan_some_equiv(p.items, dmd1, dmd2);
            },
            _ => {
            },
        }
        match (spec_block_md(blocks[i], dmd1), spec_block_md(blocks[i], dmd2)) {
            (Some(m1), Some(m2)) => {
                lemma_blocks_some_equiv(blocks, i + 1, acc1 + m1, acc2 + m2, dmd1, dmd2);
            },
            _ => {
            },
        }
    }
}

/// Whether a word-processing conversion succeeds: the archive and every
/// media payload read, the body parses, and the body renders — which fails
/// only when a drawing is embedded while the first extension-matching
/// media payload is empty; render-ability does not depend on the chosen
/// image name.
pub open spec fn docx_converts(bytes: Seq<u8>) -> bool {
    zip_parse(bytes) is Some && media_ok(zip_parse(bytes).unwrap(), "word/media/"@)
        && docx_read_ok(bytes) && docx_model_of(bytes) is Some && spec_docx_md(
        docx_model_of(bytes).unwrap(),
        spec_drawing(
            spec_media(zip_parse(bytes).unwrap(), "word/media/"@),
            Seq::empty(),
            ImageProcessingMode::Base64,
        ),
    ) is Some
}

/// Law: a conversion whose container and document tree read successfully
/// is owed a result — the only remaining failure is a media table whose
/// first embeddable image has an empty payload.
pub proof fn lemma_docx_succeeds(
    blocks: Seq<SpecBlock>,
    media: Seq<(Seq<char>, Seq<u8>)>,
    img_name: Seq<char>,
    mode: ImageProcessingMode,
)
    requires
        !(spec_drawing(media, img_name, mode) is Bad),
    ensures
        spec_docx_md(blocks, spec_drawing(media, img_name, mode)) is Some,
{
    lemma_blocks_md_some(blocks, 0, "# Document\n\n"@, spec_drawing(media, img_name, mode));
}

proof fn lemma_run_text_none_extends(items: Seq<SpecRunItem>, dmd: SpecDrawing, k: int)
    requires
        0 <= k <= items.len(),
        spec_run_text(items.subrange(0, k), dmd) is None,
    ensures
        spec_run_text(items, dmd) is None,
    decreases items.len() - k,
{
    if k == items.len() {
        assert(items.subrange(0, k) =~= items);
    } else {
        assert(items.subrange(0, k + 1).drop_last() =~= items.subrange(0, k));
        lemma_run_text_none_extends(items, dmd, k + 1);
    }
}

proof fn lemma_para_scan_none_extends(items: Seq<SpecParaItem>, dmd: SpecDrawing, k: int)
    requires
        0 <= k <= items.len(),
        spec_para_scan(items.subrange(0, k), dmd) is None,
    ensures
        spec_para_scan(items, dmd) is None,
    decreases items.len() - k,
{
    if k == items.len() {
        assert(items.subrange(0, k) =~= items);
    } else {
        assert(items.subrange(0, k + 1).drop_last() =~= items.subrange(0, k));
        lemma_para_scan_none_extends(items, dmd, k + 1);
    }
}

/// The accumulated signals of a paragraph's children.
pub ghost struct ParaScan {
    pub bold: bool,
    pub size: Option<i64>,
    pub text: Seq<char>,
}

/// Scans a paragraph's children in order: bold holds if any run is bold,
/// the last explicit size wins, and run texts concatenate.
pub open spec fn spec_para_scan(items: Seq<SpecParaItem>, dmd: SpecDrawing) -> Option<ParaScan>
    decreases items.len(),
{
    if items.len() == 0 {
        Some(ParaScan { bold: false, size: None, text: Seq::empty() })
    } else {
        match spec_para_scan(items.drop_last(), dmd) {
            None => None,
            Some(f) => match items.last() {
                SpecParaItem::Run(r) => match spec_run_text(r.items, dmd) {
                    None => None,
                    Some(t) => Some(
                        ParaScan {
                            bold: f.bold || r.bold,
                            size: if r.size is Some {
                                r.size
                            } else {
                                f.size
                            },
                            text: f.text + t,
                        },
                    ),
                },
                SpecParaItem::Other => Some(f),
            },
        }
    }
}

/// The Markdown one paragraph renders to: a clamped heading line when the
/// classifier says so and the text is not blank, else the raw text.
pub open spec fn spec_para_md(p: SpecPara, dmd: SpecDrawing) -> Option<Seq<char>> {
    let style = match p.style {
        Some(s) => spec_check_style(s),
        None => None,
    };
    let sh = style matches Some(_);
    let sl = match style {
        Some(t) => t.1,
        None => 1usize,
    };
    match spec_para_scan(p.items, dmd) {
        None => None,
        Some(f) => {
            let d = spec_determine_heading(sh, sl, f.bold, f.size, f.text);
            if d.0 && spec_trim(f.text).len() > 0 {
                Some(spec_heading_line(d.1, f.text))
            } else {
                Some(f.text)
            }
        },
    }
}

/// Renders one paragraph, given the drawing resolution.
pub fn process_paragraph(p: &docx_rust::document::Paragraph, dmd: &DrawingMd) -> (r: Result<
    String,
    ConvertError,
>)
    ensures
        (match spec_para_md(para_model(*p), dmd@) {
            Some(m) => r matches Ok(s) && s@ == m,
            None => r matches Err(e) && e is DocumentParse,
        }),
{
    let ghost pm = para_model(*p);
    let style = para_style(p);
    let mut style_is_heading = false;
    let mut style_level: usize = 1;
    match &style {
        Some(s) => {
            match check_style_for_heading(s.as_str()) {
                Some((h, l)) => {
                    style_is_heading = h;
                    style_level = l;
                },
                None => {},
            }
        },
        None => {},
    }
    proof {
        let spec_style = match pm.style {
            Some(s) => spec_check_style(s),
            None => None::<(bool, usize)>,
        };
        assert(style_is_heading == (spec_style matches Some(_)));
        assert(style_level == (match spec_style {
            Some(t) => t.1,
            None => 1usize,
        }));
    }
    let items = para_items(p);
    let ghost iview = items@.map_values(
        |c: docx_rust::document::ParagraphContent| pitem_model(c),
    );
    let mut has_bold = false;
    let mut font_size: Option<i64> = None;
    let mut text = String::new();
    let mut i: usize = 0;
    proof {
        assert(iview.subrange(0, 0) =~= Seq::<SpecParaItem>::empty());
    }
    while i < items.len()
        invariant
            0 <= i <= items@.len(),
            pm == para_model(*p),
            iview == items@.map_values(
                |c: docx_rust::document::ParagraphContent| pitem_model(c),
            ),
            iview == pm.items,
            spec_para_scan(iview.subrange(0, i as int), dmd@) == Some(
                ParaScan { bold: has_bold, size: font_size, text: text@ },
            ),
        decreases items@.len() - i,
    {
        proof {
            assert(iview[i as int] == pitem_model(items@[i as int]));
            assert(iview.subrange(0, i + 1).drop_last() =~= iview.subrange(0, i as int));
        }
        match pitem_as_run(&items[i]) {
            Some(run) => {
                let ghost rm = run_model(*run);
                if run_bold(run) {
                    has_bold = true;
                }
                match run_size(run) {
                    Some(v) => {
                        font_size = Some(v);
                    },
                    None => {},
                }
                let ritems = run_items(run);
                let ghost rview = ritems@.map_values(
                    |c: docx_rust::document::RunContent| ritem_model(c),
                );
                let mut j: usize = 0;
                let mut run_text = String::new();
                proof {
                    assert(rview.subrange(0, 0) =~= Seq::<SpecRunItem>::empty());
                }
                while j < ritems.len()
                    invariant
                        0 <= j <= ritems@.len(),
                        rview == ritems@.map_values(
                            |c: docx_rust::document::RunContent| ritem_model(c),
                        ),
                        rview == rm.items,
                        pm == para_model(*p),
                        iview == pm.items,
                        0 <= i < iview.len(),
                        iview[i as int] == SpecParaItem::Run(rm),
                        spec_para_scan(iview.subrange(0, i as int), dmd@) is Some,
                        spec_run_text(rview.subrange(0, j as int), dmd@) == Some(run_text@),
                    decreases ritems@.len() - j,
                {
                    proof {
                        assert(rview[j as int] == ritem_model(ritems@[j as int]));
                        assert(rview.subrange(0, j + 1).drop_last() =~= rview.subrange(
                            0,
                            j as int,
                        ));
                    }
                    match ritem_as_text(&ritems[j]) {
                        Some(t) => {
                            run_text.append(t.as_str());
                        },
                        None => {
                            if ritem_is_drawing(&ritems[j]) {
                                match dmd {
                                    DrawingMd::NoImage => {},
                                    DrawingMd::Md(s) => {
                                        run_text.append(s.as_str());
                                    },
                                    DrawingMd::Bad => {
                                        proof {
                                            assert(spec_run_text(
                                                rview.subrange(0, j + 1),
                                                dmd@,
                                            ) is None);
                                            lemma_run_text_none_extends(rview, dmd@, j + 1);
                                            assert(spec_para_scan(
                                                iview.subrange(0, i + 1),
                                                dmd@,
                                            ) is None);
                                            lemma_para_scan_none_extends(iview, dmd@, i + 1);
                                            assert(spec_para_scan(pm.items, dmd@) is None);
                                            assert(spec_para_md(pm, dmd@) is None);
                                        }
                                        return Err(
                                            ConvertError::DocumentParse(
                                                String::from_str("empty embedded image payload"),
                                            ),
                                        );
                                    },
                                }
                            }
                        },
                    }
                    j = j + 1;
                }
                proof {
                    assert(rview.subrange(0, rview.len() as int) =~= rview);
                }
                text.append(run_text.as_str());
            },
            None => {},
        }
        i = i + 1;
    }
    proof {
        assert(iview.subrange(0, iview.len() as int) =~= iview);
    }
    let (is_h, lvl) = determine_heading_status(
        style_is_heading,
        style_level,
        has_bold,
        font_size,
        text.as_str(),
    );
    let text_chars = chars_of_str(text.as_str());
    let trimmed = trim_chars(&text_chars);
    if is_h && trimmed.len() > 0 {
        Ok(heading_line(lvl, text.as_str()))
    } else {
        Ok(text)
    }
}

/// The literal text of a run's children, ignoring drawings.
pub open spec fn spec_run_plain_text(items: Seq<SpecRunItem>) -> Seq<char>
    decreases items.len(),
{
    if items.len() == 0 {
        Seq::empty()
    } else {
        match items.last() {
            SpecRunItem::Text(t) => spec_run_plain_text(items.drop_last()) + t,
            _ => spec_run_plain_text(items.drop_last()),
        }
    }
}

/// The literal text of a paragraph's runs, in order.
pub open spec fn spec_para_plain_text(items: Seq<SpecParaItem>) -> Seq<char>
    decreases items.len(),
{
    if items.len() == 0 {
        Seq::empty()
    } else {
        match items.last() {
            SpecParaItem::Run(r) => spec_para_plain_text(items.drop_last()) + spec_run_plain_text(
                r.items,
            ),
            SpecParaItem::Other => spec_para_plain_text(items.drop_last()),
        }
    }
}

/// Adds one cell paragraph's text to the running cell text, then a single
/// separating space unless the text already ends in one.
pub open spec fn spec_cell_para_add(acc: Seq<char>, p: SpecPara) -> Seq<char> {
    let a2 = acc + spec_para_plain_text(p.items);
    if a2.len() > 0 && a2.last() != ' ' {
        a2.push(' ')
    } else {
        a2
    }
}

/// The accumulated text of a cell's paragraphs.
pub open spec fn spec_cell_accum(paras: Seq<SpecPara>) -> Seq<char>
    decreases paras.len(),
{
    if paras.len() == 0 {
        Seq::empty()
    } else {
        spec_cell_para_add(spec_cell_accum(paras.drop_last()), paras.last())
    }
}

/// One table cell's rendered text: its paragraphs' run texts, space-joined
/// and trimmed.
pub open spec fn spec_cell_text(paras: Seq<SpecPara>) -> Seq<char> {
    spec_trim(spec_cell_accum(paras))
}

/// Extracts the plain text of one table cell.
pub fn extract_cell_text(c: &docx_rust::document::TableCell) -> (r: String)
    ensures
        r@ == spec_cell_text(cell_model(*c)),
{
    let ghost cm = cell_model(*c);
    let paras = cell_items(c);
    let ghost pview = paras@.map_values(
        |cc: docx_rust::document::TableCellContent| cellitem_model(cc),
    );
    let mut out: Vec<char> = Vec::new();
    let mut i: usize = 0;
    proof {
        assert(pview.subrange(0, 0) =~= Seq::<SpecPara>::empty());
    }
    while i < paras.len()
        invariant
            0 <= i <= paras@.len(),
            cm == cell_model(*c),
            pview == paras@.map_values(
                |cc: docx_rust::document::TableCellContent| cellitem_model(cc),
            ),
            pview == cm,
            out@ == spec_cell_accum(pview.subrange(0, i as int)),
        decreases paras@.len() - i,
    {
        proof {
            assert(pview[i as int] == cellitem_model(paras@[i as int]));
            assert(pview.subrange(0, i + 1).drop_last() =~= pview.subrange(0, i as int));
        }
        let para = cellitem_para(&paras[i]);
        let ghost sp = para_model(*para);
        let items = para_items(para);
        let ghost iview = items@.map_values(
            |cc: docx_rust::document::ParagraphContent| pitem_model(cc),
        );
        let mut j: usize = 0;
        proof {
            assert(iview.subrange(0, 0) =~= Seq::<SpecParaItem>::empty());
        }
        while j < items.len()
            invariant
                0 <= j <= items@.len(),
                sp == para_model(*para),
                iview == items@.map_values(
                    |cc: docx_rust::document::ParagraphContent| pitem_model(cc),
                ),
                iview == sp.items,
                out@ == spec_cell_accum(pview.subrange(0, i as int)) + spec_para_plain_text(
                    iview.subrange(0, j as int),
                ),
            decreases items@.len() - j,
        {
            proof {
                assert(iview[j as int] == pitem_model(items@[j as int]));
                assert(iview.subrange(0, j + 1).drop_last() =~= iview.subrange(0, j as int));
            }
            match pitem_as_run(&items[j]) {
                Some(run) => {
                    let ghost rm = run_model(*run);
                    let ritems = run_items(run);
                    let ghost rview = ritems@.map_values(
                        |cc: docx_rust::document::RunContent| ritem_model(cc),
                    );
                    let mut k: usize = 0;
                    proof {
                        assert(rview.subrange(0, 0) =~= Seq::<SpecRunItem>::empty());
                    }
                    while k < ritems.len()
                        invariant
                            0 <= k <= ritems@.len(),
                            rm == run_model(*run),
                            rview == ritems@.map_values(
                                |cc: docx_rust::document::RunContent| ritem_model(cc),
                            ),
                            rview == rm.items,
                            out@ == spec_cell_accum(pview.subrange(0, i as int))
                                + spec_para_plain_text(iview.subrange(0, j as int))
                                + spec_run_plain_text(rview.subrange(0, k as int)),
                        decreases ritems@.len() - k,
                    {
                        proof {
                            assert(rview[k as int] == ritem_model(ritems@[k as int]));
                            assert(rview.subrange(0, k + 1).drop_last() =~= rview.subrange(
                                0,
                                k as int,
                            ));
                        }
                        match ritem_as_text(&ritems[k]) {
                            Some(t) => {
                                push_str_chars(&mut out, t.as_str());
                            },
                            None => {},
                        }
                        k = k + 1;
                    }
                    proof {
                        assert(rview.subrange(0, rview.len() as int) =~= rview);
                    }
                },
                None => {},
            }
            j = j + 1;
        }
        proof {
            assert(iview.subrange(0, iview.len() as int) =~= iview);
        }
        if out.len() > 0 && out[out.len() - 1] != ' ' {
            out.push(' ');
        }
        proof {
            assert(out@ == spec_cell_accum(pview.subrange(0, i + 1)));
        }
        i = i + 1;
    }
    proof {
        assert(pview.subrange(0, pview.len() as int) =~= pview);
    }
    let trimmed = trim_chars(&out);
    string_from_chars(&trimmed)
}

/// The rendering of a row's slots: ` text |` for each real cell, a bare
/// ` |` for any other slot.
pub open spec fn docx_cells_md(cells: Seq<SpecCellSlot>) -> Seq<char>
    decreases cells.len(),
{
    if cells.len() == 0 {
        Seq::empty()
    } else {
        match cells.last() {
            SpecCellSlot::Cell(paras) => docx_cells_md(cells.drop_last()) + " "@ + spec_cell_text(
                paras,
            ) + " |"@,
            SpecCellSlot::Other => docx_cells_md(cells.drop_last()) + " |"@,
        }
    }
}

/// One full table line.
pub open spec fn docx_row_md(cells: Seq<SpecCellSlot>) -> Seq<char> {
    "|"@ + docx_cells_md(cells) + "\n"@
}

/// The data rows, in order.
pub open spec fn docx_rows_md(rows: Seq<Seq<SpecCellSlot>>) -> Seq<char>
    decreases rows.len(),
{
    if rows.len() == 0 {
        Seq::empty()
    } else {
        docx_rows_md(rows.drop_last()) + docx_row_md(rows.last())
    }
}

/// The Markdown of one document table: the first row as header, a
/// separator sized to its slot count, then the remaining rows; an empty
/// table renders to nothing.
pub open spec fn spec_docx_table_md(rows: Seq<Seq<SpecCellSlot>>) -> Seq<char> {
    if rows.len() == 0 {
        Seq::empty()
    } else {
        docx_row_md(rows[0]) + "|"@ + sep_cells(rows[0].len()) + "\n"@ + docx_rows_md(
            rows.drop_first(),
        )
    }
}

/// Renders one row into `out`.
fn push_docx_row(out: &mut Vec<char>, row: &docx_rust::document::TableRow)
    ensures
        final(out)@ == old(out)@ + docx_row_md(row_model(*row)),
{
    let ghost rm = row_model(*row);
    let cells = row_items(row);
    let ghost cview = cells@.map_values(
        |cc: docx_rust::document::TableRowContent| rowitem_model(cc),
    );
    push_str_chars(out, "|");
    let mut j: usize = 0;
    proof {
        assert(cview.subrange(0, 0) =~= Seq::<SpecCellSlot>::empty());
    }
    while j < cells.len()
        invariant
            0 <= j <= cells@.len(),
            rm == row_model(*row),
            cview == cells@.map_values(
                |cc: docx_rust::document::TableRowContent| rowitem_model(cc),
            ),
            cview == rm,
            out@ == old(out)@ + "|"@ + docx_cells_md(cview.subrange(0, j as int)),
        decreases cells@.len() - j,
    {
        proof {
            assert(cview[j as int] == rowitem_model(cells@[j as int]));
            assert(cview.subrange(0, j + 1).drop_last() =~= cview.subrange(0, j as int));
        }
        match rowitem_as_cell(&cells[j]) {
            Some(tc) => {
                let text = extract_cell_text(tc);
                push_str_chars(out, " ");
                push_str_chars(out, text.as_str());
                push_str_chars(out, " |");
            },
            None => {
                push_str_chars(out, " |");
            },
        }
        j = j + 1;
    }
    push_str_chars(out, "\n");
    proof {
        assert(cview.subrange(0, cview.len() as int) =~= cview);
        assert(final(out)@ =~= old(out)@ + docx_row_md(rm));
    }
}

/// Renders one document table as Markdown.
pub fn process_table(t: &docx_rust::document::Table) -> (r: String)
    ensures
        r@ == spec_docx_table_md(table_model(*t)),
{
    let ghost tm = table_model(*t);
    let rows = table_rows(t);
    let ghost rview = rows@.map_values(|rw: docx_rust::document::TableRow| row_model(rw));
    let mut out: Vec<char> = Vec::new();
    if rows.len() == 0 {
        return string_from_chars(&out);
    }
    push_docx_row(&mut out, &rows[0]);
    push_str_chars(&mut out, "|");
    let ghost first = rview[0];
    let first_cells = row_items(&rows[0]);
    let n = first_cells.len();
    proof {
        assert(first_cells@.map_values(
            |cc: docx_rust::document::TableRowContent| rowitem_model(cc),
        ).len() == first.len());
    }
    let mut k: usize = 0;
    while k < n
        invariant
            0 <= k <= n,
            rview.len() > 0,
            n == first.len(),
            first == rview[0],
            out@ == docx_row_md(rview[0]) + "|"@ + sep_cells(k as nat),
        decreases n - k,
    {
        push_str_chars(&mut out, "---|");
        k = k + 1;
    }
    push_str_chars(&mut out, "\n");
    let mut i: usize = 1;
    while i < rows.len()
        invariant
            1 <= i <= rows@.len(),
            tm == table_model(*t),
            rview == rows@.map_values(|rw: docx_rust::document::TableRow| row_model(rw)),
            rview == tm,
            first == rview[0],
            out@ == docx_row_md(rview[0]) + "|"@ + sep_cells(first.len()) + "\n"@ + docx_rows_md(
                rview.subrange(1, i as int),
            ),
        decreases rows@.len() - i,
    {
        push_docx_row(&mut out, &rows[i]);
        proof {
            let pre = rview.subrange(1, i as int);
            let cur = rview.subrange(1, i + 1);
            assert(cur.drop_last() =~= pre);
            assert(cur.last() == rview[i as int]);
        }
        i = i + 1;
    }
    proof {
        assert(rview.subrange(1, rview.len() as int) =~= rview.drop_first());
        assert(out@ =~= spec_docx_table_md(tm));
    }
    string_from_chars(&out)
}

/// The Markdown one body block contributes: a non-blank paragraph or table
/// rendering followed by a blank line, nothing for blank renderings and
/// other content.
pub open spec fn spec_block_md(b: SpecBlock, dmd: SpecDrawing) -> Option<Seq<char>> {
    match b {
        SpecBlock::Para(p) => match spec_para_md(p, dmd) {
            None => None,
            Some(m) => Some(
                if spec_trim(m).len() > 0 {
                    m + "\n\n"@
                } else {
                    Seq::<char>::empty()
                },
            ),
        },
        SpecBlock::Tbl(rows) => {
            let m = spec_docx_table_md(rows);
            Some(
                if spec_trim(m).len() > 0 {
                    m + "\n\n"@
                } else {
                    Seq::<char>::empty()
                },
            )
        },
        SpecBlock::Other => Some(Seq::<char>::empty()),
    }
}

/// The document body's Markdown, accumulated block by block.
pub open spec fn spec_blocks_md(
    blocks: Seq<SpecBlock>,
    i: int,
    acc: Seq<char>,
    dmd: SpecDrawing,
) -> Option<Seq<char>>
    decreases blocks.len() - i,
    when 0 <= i <= blocks.len()
{
    if i >= blocks.len() {
        Some(acc)
    } else {
        match spec_block_md(blocks[i], dmd) {
            None => None,
            Some(m) => spec_blocks_md(blocks, i + 1, acc + m, dmd),
        }
    }
}

/// The whole document's Markdown: a fixed document heading, then each
/// block in order.
pub open spec fn spec_docx_md(blocks: Seq<SpecBlock>, dmd: SpecDrawing) -> Option<Seq<char>> {
    spec_blocks_md(blocks, 0, "# Document\n\n"@, dmd)
}

/// Law: the conversion draws on the clock only through the generated image
/// name — a document whose media holds no embeddable image converts
/// identically at any two clock readings.
pub proof fn lemma_docx_clock_free(
    blocks: Seq<SpecBlock>,
    media: Seq<(Seq<char>, Seq<u8>)>,
    mode: ImageProcessingMode,
    ts1: int,
    ts2: int,
)
    requires
        spec_find_ext(media) is None,
    ensures
        spec_docx_md(blocks, spec_drawing(media, spec_timestamp_name(ts1), mode)) == spec_docx_md(
            blocks,
            spec_drawing(media, spec_timestamp_name(ts2), mode),
        ),
{
}

/// Converts a word-processing container to Markdown under a chosen image
/// placement mode and image name.
///
/// Media entries are extracted first; the parsed body's paragraphs and
/// tables then render in document order, with blank-rendering blocks
/// dropped and the rest separated by blank lines. Embedded drawings all
/// resolve to the first media entry with an allowed image extension; in
/// saved-file mode the result also carries the payload the caller must
/// write under the referenced filename. Malformed archives and unreadable
/// entries are container errors; an unparsable document tree is a
/// document parse error.
pub fn run_with_options(file_stream: &[u8], mode: ImageProcessingMode, img_name: &str) -> (r:
    Result<(String, Option<(String, Vec<u8>)>), ConvertError>)
    ensures
        zip_parse(file_stream@) is None ==> (r matches Err(e) && e is Container),
        r is Ok ==> zip_parse(file_stream@) is Some && media_ok(
            zip_parse(file_stream@).unwrap(),
            "word/media/"@,
        ) && docx_read_ok(file_stream@) && docx_model_of(file_stream@) is Some,
        r matches Ok(p) ==> spec_docx_md(
            docx_model_of(file_stream@).unwrap(),
            spec_drawing(
                spec_media(zip_parse(file_stream@).unwrap(), "word/media/"@),
                img_name@,
                mode,
            ),
        ) == Some(p.0@),
        r matches Ok(p) ==> saved_file_ok(
            spec_media(zip_parse(file_stream@).unwrap(), "word/media/"@),
            img_name@,
            mode,
            p.1,
        ),
        r matches Err(e) ==> (e is Container || e is DocumentParse),
        r is Ok <==> docx_converts(file_stream@),
{
    let bytes = vstd::slice::slice_to_vec(file_stream);
    let mut c = match Container::open(bytes) {
        Ok(c) => c,
        Err(e) => {
            return Err(e);
        },
    };
    let media = match collect_media(&mut c, "word/media/") {
        Ok(m) => m,
        Err(e) => {
            return Err(e);
        },
    };
    let (dmd, saved) = resolve_drawing(&media, img_name, &mode);
    let bytes2 = vstd::slice::slice_to_vec(file_stream);
    let file = match docx_from_bytes(&bytes2) {
        Ok(f) => f,
        Err(m) => {
            return Err(ConvertError::Container(m));
        },
    };
    let parsed = match docx_parse(&file) {
        Ok(d) => d,
        Err(m) => {
            return Err(ConvertError::DocumentParse(m));
        },
    };
    let blocks = docx_body(&parsed);
    let ghost bview = blocks@.map_values(
        |b: docx_rust::document::BodyContent| block_model(b),
    );
    let mut md = String::new();
    md.append("# Document\n\n");
    let mut i: usize = 0;
    while i < blocks.len()
        invariant
            0 <= i <= blocks@.len(),
            bview == blocks@.map_values(|b: docx_rust::document::BodyContent| block_model(b)),
            bview == docx_model_of(file_stream@).unwrap(),
            docx_model_of(file_stream@) is Some,
            zip_parse(file_stream@) is Some,
            media_ok(zip_parse(file_stream@).unwrap(), "word/media/"@),
            docx_read_ok(file_stream@),
            dmd@ == spec_drawing(
                spec_media(zip_parse(file_stream@).unwrap(), "word/media/"@),
                img_name@,
                mode,
            ),
            saved_file_ok(
                spec_media(zip_parse(file_stream@).unwrap(), "word/media/"@),
                img_name@,
                mode,
                saved,
            ),
            spec_blocks_md(bview, i as int, md@, dmd@) == spec_docx_md(bview, dmd@),
        decreases blocks@.len() - i,
    {
        proof {
            assert(bview[i as int] == block_model(blocks@[i as int]));
        }
        match block_as_paragraph(&blocks[i]) {
            Some(p) => {
                let para_md = match process_paragraph(p, &dmd) {
                    Ok(m) => m,
                    Err(e) => {
                        proof {
                            if !(dmd@ is Bad) {
                                lemma_para_scan_some(para_model(*p).items, dmd@);
                            }
                            assert(dmd@ is Bad);
                            assert(spec_block_md(bview[i as int], dmd@) is None);
                            assert(spec_docx_md(bview, dmd@) is None);
                            let dmd0 = spec_drawing(
                                spec_media(zip_parse(file_stream@).unwrap(), "word/media/"@),
                                Seq::<char>::empty(),
                                ImageProcessingMode::Base64,
                            );
                            lemma_blocks_some_equiv(
                                bview,
                                0,
                                "# Document\n\n"@,
                                "# Document\n\n"@,
                                dmd@,
                                dmd0,
                            );
                            assert(!docx_converts(file_stream@));
                        }
                        return Err(e);
                    },
                };
                let md_chars = chars_of_str(para_md.as_str());
                let trimmed = trim_chars(&md_chars);
                if trimmed.len() > 0 {
                    let ghost md0 = md@;
                    md.append(para_md.as_str());
                    md.append("\n\n");
                    proof {
                        assert(md@ =~= md0 + (para_md@ + "\n\n"@));
                    }
                } else {
                    proof {
                        assert(md@ =~= md@ + Seq::<char>::empty());
                    }
                }
            },
            None => {
                match block_as_table(&blocks[i]) {
                    Some(t) => {
                        let table_md = process_table(t);
                        let md_chars = chars_of_str(table_md.as_str());
                        let trimmed = trim_chars(&md_chars);
                        if trimmed.len() > 0 {
                            let ghost md0 = md@;
                            md.append(table_md.as_str());
                            md.append("\n\n");
                            proof {
                                assert(md@ =~= md0 + (table_md@ + "\n\n"@));
                            }
                        } else {
                            proof {
                                assert(md@ =~= md@ + Seq::<char>::empty());
                            }
                        }
                    },
                    None => {
                        proof {
                            assert(md@ =~= md@ + Seq::<char>::empty());
                        }
                    },
                }
            },
        }
        i = i + 1;
    }
    proof {
        assert(spec_blocks_md(bview, bview.len() as int, md@, dmd@) == Some(md@));
        let dmd0 = spec_drawing(
            spec_media(zip_parse(file_stream@).unwrap(), "word/media/"@),
            Seq::<char>::empty(),
            ImageProcessingMode::Base64,
        );
        lemma_blocks_some_equiv(bview, 0, "# Document\n\n"@, "# Document\n\n"@, dmd@, dmd0);
        assert(docx_converts(file_stream@));
    }
    Ok((md, saved))
}

/// Converts a word-processing container to Markdown with inline base64
/// image placement, naming embedded images once per conversion from the
/// clock.
pub fn run(file_stream: &[u8]) -> (r: Result<String, ConvertError>)
    ensures
        zip_parse(file_stream@) is None ==> (r matches Err(e) && e is Container),
        r is Ok ==> zip_parse(file_stream@) is Some && media_ok(
            zip_parse(file_stream@).unwrap(),
            "word/media/"@,
        ) && docx_read_ok(file_stream@) && docx_model_of(file_stream@) is Some,
        r matches Ok(md) ==> exists|ts: int|
            spec_docx_md(
                docx_model_of(file_stream@).unwrap(),
                #[trigger] spec_drawing(
                    spec_media(zip_parse(file_stream@).unwrap(), "word/media/"@),
                    spec_timestamp_name(ts),
                    ImageProcessingMode::Base64,
                ),
            ) == Some(md@),
        r matches Err(e) ==> (e is Container || e is DocumentParse),
        r is Ok <==> docx_converts(file_stream@),
{
    let ts = crate::image::now_timestamp();
    let img_name = crate::image::timestamp_name(ts);
    match run_with_options(file_stream, ImageProcessingMode::Base64, img_name.as_str()) {
        Ok(p) => {
            proof {
                assert(spec_docx_md(
                    docx_model_of(file_stream@).unwrap(),
                    spec_drawing(
                        spec_media(zip_parse(file_stream@).unwrap(), "word/media/"@),
                        spec_timestamp_name(ts as int),
                        ImageProcessingMode::Base64,
                    ),
                ) == Some(p.0@));
            }
            Ok(p.0)
        },
        Err(e) => Err(e),
    }
}

} // verus!
