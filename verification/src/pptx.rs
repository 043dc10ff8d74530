//! The presentation path: a streaming-XML state machine over each slide's
//! markup, recognizing text bodies, tables and image blips, and emitting
//! Markdown per slide.

use quick_xml::events::Event as QEvent;
use vstd::prelude::*;
use crate::container::{
    media_ok, media_view, spec_media, zip_parse, Container, SpecZipEntry, collect_media,
};
use crate::errors::ConvertError;
use crate::heading::spec_is_title;
use crate::image::{
    base64_of, image_markdown_base64, mime_extension, resolved_mime, saved_image_reference,
    spec_base64_image_md, spec_file_image_md, ImageProcessingMode,
};
use crate::table::{format_table_as_markdown, rows_view, spec_table_md};
use crate::text::{
    chars_contain, chars_end_with, chars_of_str, chars_start_with, contains_sub, dec_digits,
    ends_with, push_str_chars, spec_trim, starts_with, str_eq, string_from_chars, trim_chars,
    u128_to_chars,
};

verus! {

#[verifier::external_type_specification]
#[verifier::external_body]
#[verifier::reject_recursive_types(R)]
pub struct ExXmlReader<R>(quick_xml::Reader<R>);

#[verifier::external_type_specification]
#[verifier::external_body]
pub struct ExBytesStart<'a>(quick_xml::events::BytesStart<'a>);

/// The `r:embed` attribute of a start element, as the scanner reports it.
pub enum EmbedAttr {
    /// No such attribute.
    Absent,
    /// The attribute's value.
    Present(String),
    /// The element's attributes could not be read.
    Malformed,
}

/// One XML event, reduced to what the slide state machine consumes.
pub enum XmlEv {
    /// An element start tag, with its name and its `r:embed` attribute.
    Start { name: String, embed: EmbedAttr },
    /// An element end tag.
    End { name: String },
    /// Character data, already unescaped (unescape failures read as empty).
    Text { text: String },
    /// End of the document.
    Eof,
    /// Malformed markup from this point on.
    Error,
    /// Any other event kind, ignored by the state machine.
    Other,
}

/// The model of an embed attribute.
pub ghost enum SpecEmbed {
    Absent,
    Present(Seq<char>),
    Malformed,
}

/// The model of one XML event.
pub ghost enum SpecXmlEvent {
    Start { name: Seq<char>, embed: SpecEmbed },
    End { name: Seq<char> },
    Text { text: Seq<char> },
    Eof,
    Error,
    Other,
}

impl View for EmbedAttr {
    type V = SpecEmbed;

    open spec fn view(&self) -> SpecEmbed {
        match self {
            EmbedAttr::Absent => SpecEmbed::Absent,
            EmbedAttr::Present(s) => SpecEmbed::Present(s@),
            EmbedAttr::Malformed => SpecEmbed::Malformed,
        }
    }
}

impl View for XmlEv {
    type V = SpecXmlEvent;

    open spec fn view(&self) -> SpecXmlEvent {
        match self {
            XmlEv::Start { name, embed } => SpecXmlEvent::Start { name: name@, embed: embed@ },
            XmlEv::End { name } => SpecXmlEvent::End { name: name@ },
            XmlEv::Text { text } => SpecXmlEvent::Text { text: text@ },
            XmlEv::Eof => SpecXmlEvent::Eof,
            XmlEv::Error => SpecXmlEvent::Error,
            XmlEv::Other => SpecXmlEvent::Other,
        }
    }
}

/// Whether an event ends the stream.
pub open spec fn is_terminal(e: SpecXmlEvent) -> bool {
    e is Eof || e is Error
}

/// A well-formed event stream: finite, with exactly one terminal event, at
/// the end.
pub open spec fn wf_events(evs: Seq<SpecXmlEvent>) -> bool {
    evs.len() > 0 && is_terminal(evs.last()) && (forall|i: int|
        0 <= i < evs.len() - 1 ==> !is_terminal(#[trigger] evs[i]))
}

/// The XML event sequence of a byte buffer, ending in `Eof` for well-formed
/// markup and in `Error` where parsing stops; the sequence depends on the
/// bytes alone.
pub uninterp spec fn xml_events_of(bytes: Seq<u8>) -> Seq<SpecXmlEvent>;

/// The events a reader has yet to yield.
pub uninterp spec fn reader_events(r: quick_xml::Reader<std::io::Cursor<Vec<u8>>>) -> Seq<
    SpecXmlEvent,
>;

/// Relies on `quick_xml::Reader::from_reader` over an in-memory buffer: the
/// reader will yield events until end of input or a parse error.
#[verifier::external_body]
fn xml_reader(bytes: Vec<u8>) -> (r: quick_xml::Reader<std::io::Cursor<Vec<u8>>>)
    ensures
        reader_events(r) == xml_events_of(bytes@),
        wf_events(reader_events(r)),
{
    quick_xml::Reader::from_reader(std::io::Cursor::new(bytes))
}

/// Relies on `String::from_utf8_lossy`: element names reduced to text;
/// what this plumbing yields is pinned down by `read_event`'s contract.
#[verifier::external_body]
fn lossy_name(b: &[u8]) -> String {
    String::from_utf8_lossy(b).into_owned()
}

/// Relies on `BytesStart::try_get_attribute`: the element's `r:embed`
/// attribute, or a malformed marker when its attributes cannot be read;
/// what this plumbing yields is pinned down by `read_event`'s contract.
#[verifier::external_body]
fn embed_of(e: &quick_xml::events::BytesStart) -> EmbedAttr {
    match e.try_get_attribute("r:embed") {
        Ok(Some(a)) => EmbedAttr::Present(String::from_utf8_lossy(&a.value).into_owned()),
        Ok(None) => EmbedAttr::Absent,
        Err(_) => EmbedAttr::Malformed,
    }
}

/// Relies on `quick_xml::Reader::read_event_into`, `BytesStart::name` and
/// `BytesText::unescape`: yields the next event of the stream, reduced to
/// the slide state machine's alphabet.
#[verifier::external_body]
fn read_event(r: &mut quick_xml::Reader<std::io::Cursor<Vec<u8>>>, buf: &mut Vec<u8>) -> (ev:
    XmlEv)
    requires
        reader_events(*old(r)).len() > 0,
    ensures
        reader_events(*final(r)) == reader_events(*old(r)).drop_first(),
        ev@ == reader_events(*old(r))[0],
{
    buf.clear();
    match r.read_event_into(buf) {
        Ok(QEvent::Start(e)) => XmlEv::Start { name: lossy_name(e.name().as_ref()), embed: embed_of(&e) },
        Ok(QEvent::End(e)) => XmlEv::End { name: lossy_name(e.name().as_ref()) },
        Ok(QEvent::Text(e)) => XmlEv::Text { text: e.unescape().map(|t| t.into_owned()).unwrap_or_default() },
        Ok(QEvent::Eof) => XmlEv::Eof,
        Ok(_) => XmlEv::Other,
        Err(_) => XmlEv::Error,
    }
}

/// The view of a tokenized event vector.
pub open spec fn evs_view(s: Seq<XmlEv>) -> Seq<SpecXmlEvent> {
    s.map_values(|e: XmlEv| e@)
}

/// Tokenizes one slide's markup into its full event sequence, stopping at
/// the terminal event. Returns the events before the terminal, or a slide
/// parse error when the markup is malformed.
pub fn tokenize_slide(bytes: Vec<u8>) -> (r: Result<Vec<XmlEv>, ConvertError>)
    ensures
        r is Ok <==> xml_events_of(bytes@).last() is Eof,
        r matches Ok(v) ==> evs_view(v@) == xml_events_of(bytes@).drop_last(),
        r matches Err(e) ==> e is SlideParse,
{
    let ghost total = xml_events_of(bytes@);
    let mut reader = xml_reader(bytes);
    let mut buf: Vec<u8> = Vec::new();
    let mut out: Vec<XmlEv> = Vec::new();
    proof {
        assert(reader_events(reader) =~= total.subrange(0, total.len() as int));
        assert(evs_view(out@) =~= total.subrange(0, 0));
    }
    loop
        invariant
            total == xml_events_of(bytes@),
            wf_events(total),
            out@.len() < total.len(),
            reader_events(reader) == total.subrange(out@.len() as int, total.len() as int),
            evs_view(out@) == total.subrange(0, out@.len() as int),
        decreases total.len() - out@.len(),
    {
        proof {
            assert(reader_events(reader)[0] == total[out@.len() as int]);
        }
        let ev = read_event(&mut reader, &mut buf);
        match ev {
            XmlEv::Eof => {
                proof {
                    assert(total[out@.len() as int] is Eof);
                    assert(out@.len() == total.len() - 1) by {
                        if out@.len() < total.len() - 1 {
                            assert(!is_terminal(total[out@.len() as int]));
                        }
                    }
                    assert(total.last() is Eof);
                    assert(evs_view(out@) =~= total.drop_last());
                }
                return Ok(out);
            },
            XmlEv::Error => {
                proof {
                    assert(total[out@.len() as int] is Error);
                    assert(out@.len() == total.len() - 1) by {
                        if out@.len() < total.len() - 1 {
                            assert(!is_terminal(total[out@.len() as int]));
                        }
                    }
                    assert(!(total.last() is Eof));
                }
                return Err(
                    ConvertError::SlideParse(String::from_str("malformed slide markup")),
                );
            },
            _ => {
                proof {
                    assert(!is_terminal(total[out@.len() as int]));
                    if out@.len() == total.len() - 1 {
                        assert(is_terminal(total.last()));
                    }
                    assert(out@.len() < total.len() - 1);
                }
                let ghost k = out@.len() as int;
                out.push(ev);
                proof {
                    assert(evs_view(out@) =~= total.subrange(0, k + 1));
                    assert(reader_events(reader) =~= total.subrange(k + 1, total.len() as int));
                }
            },
        }
    }
}

/// Accumulates run text until the closing `a:t` tag (or end of stream);
/// returns the text gathered so far and the next event index.
pub open spec fn spec_text_run(evs: Seq<SpecXmlEvent>, i: int, acc: Seq<char>) -> (Seq<char>, int)
    decreases evs.len() - i,
    when 0 <= i <= evs.len()
{
    if i >= evs.len() {
        (acc, i)
    } else {
        match evs[i] {
            SpecXmlEvent::Text { text } => spec_text_run(evs, i + 1, acc + text),
            SpecXmlEvent::End { name } => {
                if name == "a:t"@ {
                    (acc, i + 1)
                } else {
                    spec_text_run(evs, i + 1, acc)
                }
            },
            _ => spec_text_run(evs, i + 1, acc),
        }
    }
}

/// An index bounded into `(i, len]`, as the state machine's sub-scans
/// always return; out-of-range values (which the scans never produce)
/// are pulled back to the smallest progress step.
pub open spec fn clamp_next(j: int, i: int, len: int) -> int {
    if i + 1 <= j <= len {
        j
    } else {
        i + 1
    }
}

/// Reads one text run.
fn extract_text_run(evs: &Vec<XmlEv>, start: usize) -> (r: (String, usize))
    requires
        start <= evs@.len(),
    ensures
        (r.0@, r.1 as int) == spec_text_run(evs_view(evs@), start as int, Seq::empty()),
        start <= r.1 <= evs@.len(),
{
    let ghost view = evs_view(evs@);
    let mut text = String::new();
    let mut i: usize = start;
    let n = evs.len();
    while i < n
        invariant
            start <= i <= n == evs@.len(),
            view == evs_view(evs@),
            spec_text_run(view, start as int, Seq::empty()) == spec_text_run(view, i as int, text@),
        decreases n - i,
    {
        proof {
            assert(view[i as int] == evs@[i as int]@);
        }
        match &evs[i] {
            XmlEv::Text { text: t } => {
                text.append(t.as_str());
            },
            XmlEv::End { name } => {
                if str_eq(name.as_str(), "a:t") {
                    return (text, i + 1);
                }
            },
            _ => {},
        }
        i = i + 1;
    }
    (text, i)
}

/// Reads one table cell's character data until the closing `a:tc` tag,
/// trimming the result.
pub open spec fn spec_table_cell(evs: Seq<SpecXmlEvent>, i: int, acc: Seq<char>) -> (
    Seq<char>,
    int,
)
    decreases evs.len() - i,
    when 0 <= i <= evs.len()
{
    if i >= evs.len() {
        (spec_trim(acc), i)
    } else {
        match evs[i] {
            SpecXmlEvent::Text { text } => spec_table_cell(evs, i + 1, acc + text),
            SpecXmlEvent::End { name } => {
                if name == "a:tc"@ {
                    (spec_trim(acc), i + 1)
                } else {
                    spec_table_cell(evs, i + 1, acc)
                }
            },
            _ => spec_table_cell(evs, i + 1, acc),
        }
    }
}

/// Reads one table cell.
fn extract_table_cell(evs: &Vec<XmlEv>, start: usize) -> (r: (String, usize))
    requires
        start <= evs@.len(),
    ensures
        (r.0@, r.1 as int) == spec_table_cell(evs_view(evs@), start as int, Seq::empty()),
        start <= r.1 <= evs@.len(),
{
    let ghost view = evs_view(evs@);
    let mut text: Vec<char> = Vec::new();
    let mut i: usize = start;
    let n = evs.len();
    while i < n
        invariant
            start <= i <= n == evs@.len(),
            view == evs_view(evs@),
            spec_table_cell(view, start as int, Seq::empty()) == spec_table_cell(
                view,
                i as int,
                text@,
            ),
        decreases n - i,
    {
        proof {
            assert(view[i as int] == evs@[i as int]@);
        }
        match &evs[i] {
            XmlEv::Text { text: t } => {
                push_str_chars(&mut text, t.as_str());
            },
            XmlEv::End { name } => {
                if str_eq(name.as_str(), "a:tc") {
                    let trimmed = trim_chars(&text);
                    return (string_from_chars(&trimmed), i + 1);
                }
            },
            _ => {},
        }
        i = i + 1;
    }
    let trimmed = trim_chars(&text);
    (string_from_chars(&trimmed), i)
}

/// Accumulates slide paragraphs: run text gathers across `a:t` elements;
/// each closing `a:p` flushes a non-blank paragraph as a title heading or a
/// bullet line; the closing `p:txBody` ends the scan.
pub open spec fn spec_text_body(evs: Seq<SpecXmlEvent>, i: int, cur: Seq<char>, acc: Seq<char>) -> (
    Seq<char>,
    int,
)
    decreases evs.len() - i,
    when 0 <= i <= evs.len()
{
    if i >= evs.len() {
        (acc, i)
    } else {
        match evs[i] {
            SpecXmlEvent::Start { name, .. } => {
                if name == "a:t"@ {
                    let r = spec_text_run(evs, i + 1, Seq::empty());
                    let j = clamp_next(r.1, i, evs.len() as int);
                    spec_text_body(evs, j, cur + r.0, acc)
                } else {
                    spec_text_body(evs, i + 1, cur, acc)
                }
            },
            SpecXmlEvent::End { name } => {
                if name == "a:p"@ {
                    if spec_trim(cur).len() > 0 {
                        let line = if spec_is_title(cur) {
                            "### "@ + spec_trim(cur) + "\n"@
                        } else {
                            "- "@ + spec_trim(cur) + "\n"@
                        };
                        spec_text_body(evs, i + 1, Seq::empty(), acc + line)
                    } else {
                        spec_text_body(evs, i + 1, cur, acc)
                    }
                } else if name == "p:txBody"@ {
                    (acc, i + 1)
                } else {
                    spec_text_body(evs, i + 1, cur, acc)
                }
            },
            _ => spec_text_body(evs, i + 1, cur, acc),
        }
    }
}

/// Reads one text body.
fn extract_text_body(evs: &Vec<XmlEv>, start: usize) -> (r: (String, usize))
    requires
        start <= evs@.len(),
    ensures
        (r.0@, r.1 as int) == spec_text_body(evs_view(evs@), start as int, Seq::empty(), Seq::empty()),
        start <= r.1 <= evs@.len(),
{
    let ghost view = evs_view(evs@);
    let mut acc = String::new();
    let mut cur = String::new();
    let mut i: usize = start;
    let n = evs.len();
    while i < n
        invariant
            start <= i <= n == evs@.len(),
            view == evs_view(evs@),
            spec_text_body(view, start as int, Seq::empty(), Seq::empty()) == spec_text_body(
                view,
                i as int,
                cur@,
                acc@,
            ),
        decreases n - i,
    {
        proof {
            assert(view[i as int] == evs@[i as int]@);
        }
        let mut next: usize = i + 1;
        match &evs[i] {
            XmlEv::Start { name, .. } => {
                if str_eq(name.as_str(), "a:t") {
                    let (t, j) = extract_text_run(evs, i + 1);
                    cur.append(t.as_str());
                    next = j;
                    proof {
                        assert(clamp_next(j as int, i as int, view.len() as int) == j as int);
                    }
                }
            },
            XmlEv::End { name } => {
                if str_eq(name.as_str(), "a:p") {
                    let cur_chars = chars_of_str(cur.as_str());
                    let trimmed = trim_chars(&cur_chars);
                    if trimmed.len() > 0 {
                        let ghost old_acc = acc@;
                        let ghost old_cur = cur@;
                        let title = crate::heading::is_title_text(cur.as_str());
                        let mut line = String::new();
                        if title {
                            line.append("### ");
                        } else {
                            line.append("- ");
                        }
                        let t = string_from_chars(&trimmed);
                        line.append(t.as_str());
                        line.append("\n");
                        proof {
                            if title {
                                assert(line@ =~= "### "@ + spec_trim(old_cur) + "\n"@);
                            } else {
                                assert(line@ =~= "- "@ + spec_trim(old_cur) + "\n"@);
                            }
                        }
                        acc.append(line.as_str());
                        cur = String::new();
                        proof {
                            assert(spec_text_body(view, i as int, old_cur, old_acc)
                                == spec_text_body(view, i + 1, Seq::empty(), old_acc + line@));
                        }
                    }
                } else if str_eq(name.as_str(), "p:txBody") {
                    return (acc, i + 1);
                }
            },
            _ => {},
        }
        i = next;
    }
    (acc, i)
}

/// Accumulates a table's rows: each `a:tr` opens a row, each `a:tc` scans a
/// cell into the last open row (cells before any row are dropped), and the
/// closing `a:tbl` ends the scan.
pub open spec fn spec_table(
    evs: Seq<SpecXmlEvent>,
    i: int,
    rows: Seq<Seq<Seq<char>>>,
) -> (Seq<Seq<Seq<char>>>, int)
    decreases evs.len() - i,
    when 0 <= i <= evs.len()
{
    if i >= evs.len() {
        (rows, i)
    } else {
        match evs[i] {
            SpecXmlEvent::Start { name, .. } => {
                if name == "a:tr"@ {
                    spec_table(evs, i + 1, rows.push(Seq::empty()))
                } else if name == "a:tc"@ {
                    let r = spec_table_cell(evs, i + 1, Seq::empty());
                    let j = clamp_next(r.1, i, evs.len() as int);
                    let rows2 = if rows.len() > 0 {
                        rows.update(rows.len() - 1, rows.last().push(r.0))
                    } else {
                        rows
                    };
                    spec_table(evs, j, rows2)
                } else {
                    spec_table(evs, i + 1, rows)
                }
            },
            SpecXmlEvent::End { name } => {
                if name == "a:tbl"@ {
                    (rows, i + 1)
                } else {
                    spec_table(evs, i + 1, rows)
                }
            },
            _ => spec_table(evs, i + 1, rows),
        }
    }
}

/// Reads one table.
fn extract_table(evs: &Vec<XmlEv>, start: usize) -> (r: (Vec<Vec<String>>, usize))
    requires
        start <= evs@.len(),
    ensures
        (rows_view(r.0@), r.1 as int) == spec_table(evs_view(evs@), start as int, Seq::empty()),
        start <= r.1 <= evs@.len(),
{
    let ghost view = evs_view(evs@);
    let mut rows: Vec<Vec<String>> = Vec::new();
    let mut i: usize = start;
    let n = evs.len();
    proof {
        assert(rows_view(rows@) =~= Seq::<Seq<Seq<char>>>::empty());
    }
    while i < n
        invariant
            start <= i <= n == evs@.len(),
            view == evs_view(evs@),
            spec_table(view, start as int, Seq::empty()) == spec_table(
                view,
                i as int,
                rows_view(rows@),
            ),
        decreases n - i,
    {
        proof {
            assert(view[i as int] == evs@[i as int]@);
        }
        let mut next: usize = i + 1;
        match &evs[i] {
            XmlEv::Start { name, .. } => {
                if str_eq(name.as_str(), "a:tr") {
                    let ghost before = rows_view(rows@);
                    let empty_row: Vec<String> = Vec::new();
                    rows.push(empty_row);
                    proof {
                        assert(rows_view(rows@) =~~= before.push(Seq::<Seq<char>>::empty()));
                        assert(spec_table(view, i as int, before) == spec_table(
                            view,
                            i + 1,
                            before.push(Seq::<Seq<char>>::empty()),
                        ));
                    }
                } else if str_eq(name.as_str(), "a:tc") {
                    let (cell, j) = extract_table_cell(evs, i + 1);
                    proof {
                        assert(clamp_next(j as int, i as int, view.len() as int) == j as int);
                    }
                    next = j;
                    let ghost before = rows_view(rows@);
                    if rows.len() > 0 {
                        let mut last_row = rows.pop().unwrap();
                        last_row.push(cell);
                        rows.push(last_row);
                        proof {
                            assert(rows_view(rows@) =~~= before.update(
                                before.len() - 1,
                                before.last().push(cell@),
                            ));
                            assert(spec_table(view, i as int, before) == spec_table(
                                view,
                                j as int,
                                before.update(before.len() - 1, before.last().push(cell@)),
                            ));
                        }
                    } else {
                        proof {
                            assert(spec_table(view, i as int, before) == spec_table(
                                view,
                                j as int,
                                before,
                            ));
                        }
                    }
                }
            },
            XmlEv::End { name } => {
                if str_eq(name.as_str(), "a:tbl") {
                    return (rows, i + 1);
                }
            },
            _ => {},
        }
        i = next;
    }
    (rows, i)
}

/// Whether a media entry name answers an embed reference: it contains the
/// embed id, or carries one of the allowed image extensions.
pub open spec fn spec_media_matches(name: Seq<char>, embed: Seq<char>) -> bool {
    contains_sub(name, embed) || ends_with(name, ".png"@) || ends_with(name, ".jpg"@)
        || ends_with(name, ".jpeg"@) || ends_with(name, ".gif"@) || ends_with(name, ".webp"@)
}

/// The payload of the first media entry answering an embed reference.
pub open spec fn spec_find_media(media: Seq<(Seq<char>, Seq<u8>)>, embed: Seq<char>) -> Option<
    Seq<u8>,
>
    decreases media.len(),
{
    if media.len() == 0 {
        None
    } else if spec_media_matches(media[0].0, embed) {
        Some(media[0].1)
    } else {
        spec_find_media(media.drop_first(), embed)
    }
}

proof fn lemma_find_media_at(media: Seq<(Seq<char>, Seq<u8>)>, embed: Seq<char>, k: int)
    requires
        0 <= k < media.len(),
        spec_media_matches(media[k].0, embed),
        forall|j: int| 0 <= j < k ==> !spec_media_matches((#[trigger] media[j]).0, embed),
    ensures
        spec_find_media(media, embed) == Some(media[k].1),
    decreases k,
{
    if k > 0 {
        lemma_find_media_at(media.drop_first(), embed, k - 1);
    }
}

proof fn lemma_find_media_none(media: Seq<(Seq<char>, Seq<u8>)>, embed: Seq<char>)
    requires
        forall|j: int|
            0 <= j < media.len() ==> !spec_media_matches((#[trigger] media[j]).0, embed),
    ensures
        spec_find_media(media, embed) is None,
    decreases media.len(),
{
    if media.len() > 0 {
        lemma_find_media_none(media.drop_first(), embed);
    }
}

/// Finds the first media entry answering an embed reference.
fn find_media_index(media: &Vec<(String, Vec<u8>)>, embed: &str) -> (r: Option<usize>)
    ensures
        match r {
            Some(k) => k < media@.len() && spec_find_media(media_view(media@), embed@) == Some(
                media@[k as int].1@,
            ),
            None => spec_find_media(media_view(media@), embed@) is None,
        },
{
    let mut k: usize = 0;
    while k < media.len()
        invariant
            0 <= k <= media@.len(),
            forall|j: int|
                0 <= j < k ==> !spec_media_matches(
                    (#[trigger] media_view(media@)[j]).0,
                    embed@,
                ),
        decreases media@.len() - k,
    {
        let name_chars = chars_of_str(media[k].0.as_str());
        proof {
            assert(media_view(media@)[k as int].0 == name_chars@);
        }
        if chars_contain(&name_chars, embed) || chars_end_with(&name_chars, ".png")
            || chars_end_with(&name_chars, ".jpg") || chars_end_with(&name_chars, ".jpeg")
            || chars_end_with(&name_chars, ".gif") || chars_end_with(&name_chars, ".webp") {
            proof {
                lemma_find_media_at(media_view(media@), embed@, k as int);
            }
            return Some(k);
        }
        k = k + 1;
    }
    proof {
        lemma_find_media_none(media_view(media@), embed@);
    }
    None
}

/// The Markdown one image blip yields: the first answering media payload,
/// rendered per the placement mode, or a named placeholder when nothing
/// answers.
pub open spec fn spec_blip_md(
    media: Seq<(Seq<char>, Seq<u8>)>,
    embed: Seq<char>,
    img_name: Seq<char>,
    mode: ImageProcessingMode,
) -> Seq<char> {
    match spec_find_media(media, embed) {
        Some(data) => match mode {
            ImageProcessingMode::Base64 => spec_base64_image_md(
                img_name,
                resolved_mime(data),
                base64_of(data),
            ) + "\n\n"@,
            ImageProcessingMode::SaveToFile => spec_file_image_md(
                img_name,
                img_name + "."@ + mime_extension(resolved_mime(data)),
            ) + "\n\n"@,
        },
        None => "![Image not found]("@ + embed + ")"@ + "\n\n"@,
    }
}

/// The payloads the blips of one slide resolve, in encounter order; `None`
/// when a blip's attributes are unreadable.
pub open spec fn spec_slide_files(
    evs: Seq<SpecXmlEvent>,
    i: int,
    facc: Seq<Seq<u8>>,
    media: Seq<(Seq<char>, Seq<u8>)>,
) -> Option<Seq<Seq<u8>>>
    decreases evs.len() - i,
    when 0 <= i <= evs.len()
{
    if i >= evs.len() {
        Some(facc)
    } else {
        match evs[i] {
            SpecXmlEvent::Start { name, embed } => {
                if name == "p:txBody"@ {
                    let r = spec_text_body(evs, i + 1, Seq::empty(), Seq::empty());
                    let j = clamp_next(r.1, i, evs.len() as int);
                    spec_slide_files(evs, j, facc, media)
                } else if name == "a:tbl"@ {
                    let r = spec_table(evs, i + 1, Seq::empty());
                    let j = clamp_next(r.1, i, evs.len() as int);
                    spec_slide_files(evs, j, facc, media)
                } else if name == "a:blip"@ {
                    match embed {
                        SpecEmbed::Present(id) => match spec_find_media(media, id) {
                            Some(data) => spec_slide_files(evs, i + 1, facc.push(data), media),
                            None => spec_slide_files(evs, i + 1, facc, media),
                        },
                        SpecEmbed::Absent => spec_slide_files(evs, i + 1, facc, media),
                        SpecEmbed::Malformed => None,
                    }
                } else {
                    spec_slide_files(evs, i + 1, facc, media)
                }
            },
            _ => spec_slide_files(evs, i + 1, facc, media),
        }
    }
}

/// One slide's Markdown, accumulated over its events: text bodies become
/// paragraph blocks, tables become pipe-tables, and image blips resolve
/// against the media table. `None` when a blip's attributes are unreadable.
pub open spec fn spec_slide(
    evs: Seq<SpecXmlEvent>,
    i: int,
    acc: Seq<char>,
    media: Seq<(Seq<char>, Seq<u8>)>,
    img_name: Seq<char>,
    mode: ImageProcessingMode,
) -> Option<Seq<char>>
    decreases evs.len() - i,
    when 0 <= i <= evs.len()
{
    if i >= evs.len() {
        Some(acc)
    } else {
        match evs[i] {
            SpecXmlEvent::Start { name, embed } => {
                if name == "p:txBody"@ {
                    let r = spec_text_body(evs, i + 1, Seq::empty(), Seq::empty());
                    let j = clamp_next(r.1, i, evs.len() as int);
                    let add = if spec_trim(r.0).len() > 0 {
                        r.0 + "\n\n"@
                    } else {
                        Seq::<char>::empty()
                    };
                    spec_slide(evs, j, acc + add, media, img_name, mode)
                } else if name == "a:tbl"@ {
                    let r = spec_table(evs, i + 1, Seq::empty());
                    let j = clamp_next(r.1, i, evs.len() as int);
                    spec_slide(evs, j, acc + spec_table_md(r.0) + "\n"@, media, img_name, mode)
                } else if name == "a:blip"@ {
                    match embed {
                        SpecEmbed::Present(id) => spec_slide(
                            evs,
                            i + 1,
                            acc + spec_blip_md(media, id, img_name, mode),
                            media,
                            img_name,
                            mode,
                        ),
                        SpecEmbed::Absent => spec_slide(evs, i + 1, acc, media, img_name, mode),
                        SpecEmbed::Malformed => None,
                    }
                } else {
                    spec_slide(evs, i + 1, acc, media, img_name, mode)
                }
            },
            _ => spec_slide(evs, i + 1, acc, media, img_name, mode),
        }
    }
}

proof fn lemma_slide_files_none_iff(
    evs: Seq<SpecXmlEvent>,
    i: int,
    acc: Seq<char>,
    facc: Seq<Seq<u8>>,
    media: Seq<(Seq<char>, Seq<u8>)>,
    img_name: Seq<char>,
    mode: ImageProcessingMode,
)
    requires
        0 <= i <= evs.len(),
    ensures
        (spec_slide(evs, i, acc, media, img_name, mode) is Some) == (spec_slide_files(
            evs,
            i,
            facc,
            media,
        ) is Some),
    decreases evs.len() - i,
{
    if i < evs.len() {
        match evs[i] {
            SpecXmlEvent::Start { name, embed } => {
                if name == "p:txBody"@ {
                    let r = spec_text_body(evs, i + 1, Seq::empty(), Seq::empty());
                    let j = clamp_next(r.1, i, evs.len() as int);
                    let add = if spec_trim(r.0).len() > 0 {
                        r.0 + "\n\n"@
                    } else {
                        Seq::<char>::empty()
                    };
                    lemma_slide_files_none_iff(evs, j, acc + add, facc, media, img_name, mode);
                } else if name == "a:tbl"@ {
                    let r = spec_table(evs, i + 1, Seq::empty());
                    let j = clamp_next(r.1, i, evs.len() as int);
                    lemma_slide_files_none_iff(
                        evs,
                        j,
                        acc + spec_table_md(r.0) + "\n"@,
                        facc,
                        media,
                        img_name,
                        mode,
                    );
                } else if name == "a:blip"@ {
                    match embed {
                        SpecEmbed::Present(id) => {
                            match spec_find_media(media, id) {
                                Some(data) => {
                                    lemma_slide_files_none_iff(
                                        evs,
                                        i + 1,
                                        acc + spec_blip_md(media, id, img_name, mode),
                                        facc.push(data),
                                        media,
                                        img_name,
                                        mode,
                                    );
                                },
                                None => {
                                    lemma_slide_files_none_iff(
                                        evs,
                                        i + 1,
                                        acc + spec_blip_md(media, id, img_name, mode),
                                        facc,
                                        media,
                                        img_name,
                                        mode,
                                    );
                                },
                            }
                        },
                        SpecEmbed::Absent => {
                            lemma_slide_files_none_iff(
                                evs,
                                i + 1,
                                acc,
                                facc,
                                media,
                                img_name,
                                mode,
                            );
                        },
                        SpecEmbed::Malformed => {
                        },
                    }
                } else {
                    lemma_slide_files_none_iff(evs, i + 1, acc, facc, media, img_name, mode);
                }
            },
            _ => {
                lemma_slide_files_none_iff(evs, i + 1, acc, facc, media, img_name, mode);
            },
        }
    }
}

/// Whether collected saved-file pairs answer the resolved payloads under
/// the placement mode: no pairs in inline mode; in saved-file mode one
/// pair per payload, the filename derived from the image name and the
/// payload's sniffed type.
pub open spec fn saved_files_match(
    pairs: Seq<(String, Vec<u8>)>,
    payloads: Seq<Seq<u8>>,
    img_name: Seq<char>,
    mode: ImageProcessingMode,
) -> bool {
    match mode {
        ImageProcessingMode::Base64 => pairs.len() == 0,
        ImageProcessingMode::SaveToFile => pairs.len() == payloads.len() && (forall|i: int|
            0 <= i < pairs.len() ==> ((#[trigger] pairs[i]).1@ == payloads[i] && pairs[i].0@
                == img_name + "."@ + mime_extension(resolved_mime(payloads[i])))),
    }
}

/// Runs the state machine over one tokenized slide, resolving image blips
/// against the media table under the given image name and placement mode;
/// in saved-file mode the resolved payloads to write come back with their
/// filenames. Fails with a slide parse error when a blip's attributes are
/// unreadable.
pub fn parse_slide_content(
    evs: &Vec<XmlEv>,
    media: &Vec<(String, Vec<u8>)>,
    img_name: &str,
    mode: &ImageProcessingMode,
) -> (r: Result<(String, Vec<(String, Vec<u8>)>), ConvertError>)
    ensures
        (match spec_slide(evs_view(evs@), 0, Seq::empty(), media_view(media@), img_name@, *mode) {
            Some(md) => r matches Ok(p) && p.0@ == md && (match spec_slide_files(
                evs_view(evs@),
                0,
                Seq::empty(),
                media_view(media@),
            ) {
                Some(fs) => saved_files_match(p.1@, fs, img_name@, *mode),
                None => false,
            }),
            None => r matches Err(e) && e is SlideParse,
        }),
{
    let ghost view = evs_view(evs@);
    let ghost mv = media_view(media@);
    let mut acc = String::new();
    let mut files: Vec<(String, Vec<u8>)> = Vec::new();
    let ghost mut gacc: Seq<Seq<u8>> = Seq::empty();
    let mut i: usize = 0;
    let n = evs.len();
    while i < n
        invariant
            0 <= i <= n == evs@.len(),
            view == evs_view(evs@),
            mv == media_view(media@),
            spec_slide(view, 0, Seq::empty(), mv, img_name@, *mode) == spec_slide(
                view,
                i as int,
                acc@,
                mv,
                img_name@,
                *mode,
            ),
            spec_slide_files(view, 0, Seq::empty(), mv) == spec_slide_files(
                view,
                i as int,
                gacc,
                mv,
            ),
            saved_files_match(files@, gacc, img_name@, *mode),
        decreases n - i,
    {
        proof {
            assert(view[i as int] == evs@[i as int]@);
        }
        let mut next: usize = i + 1;
        match &evs[i] {
            XmlEv::Start { name, embed } => {
                if str_eq(name.as_str(), "p:txBody") {
                    let (text, j) = extract_text_body(evs, i + 1);
                    proof {
                        assert(clamp_next(j as int, i as int, view.len() as int) == j as int);
                    }
                    next = j;
                    let text_chars = chars_of_str(text.as_str());
                    let trimmed = trim_chars(&text_chars);
                    if trimmed.len() > 0 {
                        let ghost old_acc = acc@;
                        acc.append(text.as_str());
                        acc.append("\n\n");
                        proof {
                            assert(acc@ =~= old_acc + (text@ + "\n\n"@));
                        }
                    } else {
                        proof {
                            assert(acc@ =~= acc@ + Seq::<char>::empty());
                        }
                    }
                } else if str_eq(name.as_str(), "a:tbl") {
                    let (rows, j) = extract_table(evs, i + 1);
                    proof {
                        assert(clamp_next(j as int, i as int, view.len() as int) == j as int);
                    }
                    next = j;
                    let ghost old_acc = acc@;
                    let table_md = format_table_as_markdown(&rows);
                    acc.append(table_md.as_str());
                    acc.append("\n");
                    proof {
                        assert(acc@ =~= old_acc + (spec_table_md(rows_view(rows@)) + "\n"@));
                    }
                } else if str_eq(name.as_str(), "a:blip") {
                    match embed {
                        EmbedAttr::Present(id) => {
                            let ghost old_acc = acc@;
                            match find_media_index(media, id.as_str()) {
                                Some(k) => {
                                    proof {
                                        assert(mv[k as int].1 == media@[k as int].1@);
                                    }
                                    match mode {
                                        ImageProcessingMode::Base64 => {
                                            let img = image_markdown_base64(
                                                &media[k].1,
                                                img_name,
                                            );
                                            acc.append(img.as_str());
                                            acc.append("\n\n");
                                            proof {
                                                assert(acc@ =~= old_acc + spec_blip_md(
                                                    mv,
                                                    id@,
                                                    img_name@,
                                                    *mode,
                                                ));
                                            }
                                        },
                                        ImageProcessingMode::SaveToFile => {
                                            let (fname, mdref) = saved_image_reference(
                                                &media[k].1,
                                                img_name,
                                            );
                                            acc.append(mdref.as_str());
                                            acc.append("\n\n");
                                            let payload = crate::text::clone_bytes(&media[k].1);
                                            files.push((fname, payload));
                                            proof {
                                                assert(acc@ =~= old_acc + spec_blip_md(
                                                    mv,
                                                    id@,
                                                    img_name@,
                                                    *mode,
                                                ));
                                            }
                                        },
                                    }
                                    proof {
                                        gacc = gacc.push(mv[k as int].1);
                                        assert(saved_files_match(
                                            files@,
                                            gacc,
                                            img_name@,
                                            *mode,
                                        ));
                                    }
                                },
                                None => {
                                    acc.append("![Image not found](");
                                    acc.append(id.as_str());
                                    acc.append(")");
                                    acc.append("\n\n");
                                    proof {
                                        assert(acc@ =~= old_acc + spec_blip_md(
                                            mv,
                                            id@,
                                            img_name@,
                                            *mode,
                                        ));
                                    }
                                },
                            }
                        },
                        EmbedAttr::Absent => {},
                        EmbedAttr::Malformed => {
                            return Err(
                                ConvertError::SlideParse(
                                    String::from_str("unreadable image attributes"),
                                ),
                            );
                        },
                    }
                }
            },
            _ => {},
        }
        i = next;
    }
    Ok((acc, files))
}

/// Whether an entry name denotes a slide document.
pub open spec fn is_slide_name(name: Seq<char>) -> bool {
    starts_with(name, "ppt/slides/"@) && ends_with(name, ".xml"@)
}

/// The Markdown of one slide's body. A slide whose markup is malformed, or
/// whose blip attributes are unreadable, is isolated: it contributes no
/// body, and the other slides still convert.
pub open spec fn spec_slide_body(
    bytes: Seq<u8>,
    media: Seq<(Seq<char>, Seq<u8>)>,
    img_name: Seq<char>,
    mode: ImageProcessingMode,
) -> Seq<char> {
    let evs = xml_events_of(bytes);
    if evs.last() is Eof {
        match spec_slide(evs.drop_last(), 0, Seq::empty(), media, img_name, mode) {
            Some(md) => md,
            None => Seq::empty(),
        }
    } else {
        Seq::empty()
    }
}

/// The payloads one slide's blips resolve; an isolated slide contributes
/// none.
pub open spec fn spec_slide_body_files(bytes: Seq<u8>, media: Seq<(Seq<char>, Seq<u8>)>) -> Seq<
    Seq<u8>,
> {
    let evs = xml_events_of(bytes);
    if evs.last() is Eof {
        match spec_slide_files(evs.drop_last(), 0, Seq::empty(), media) {
            Some(fs) => fs,
            None => Seq::empty(),
        }
    } else {
        Seq::empty()
    }
}

/// The condition for a presentation conversion to succeed: every entry can
/// be opened, media payloads extract, and every slide entry extracts to
/// well-formed UTF-8.
pub open spec fn pptx_ok(entries: Seq<Option<SpecZipEntry>>) -> bool {
    media_ok(entries, "ppt/media/"@) && (forall|i: int|
        0 <= i < entries.len() ==> ((#[trigger] entries[i]) matches Some(e) ==> (is_slide_name(
            e.name,
        ) ==> (e.data is Some && vstd::utf8::valid_utf8(e.data.unwrap())))))
}

/// The slide sections of the output, from entry `k` on, numbering slides
/// from `num` in archive enumeration order.
pub open spec fn spec_slides_md(
    entries: Seq<Option<SpecZipEntry>>,
    k: int,
    num: nat,
    media: Seq<(Seq<char>, Seq<u8>)>,
    img_name: Seq<char>,
    mode: ImageProcessingMode,
) -> Seq<char>
    decreases entries.len() - k,
    when 0 <= k <= entries.len()
{
    if k >= entries.len() {
        Seq::empty()
    } else {
        match entries[k] {
            Some(e) => {
                if is_slide_name(e.name) {
                    "## Slide "@ + dec_digits(num) + "\n\n"@ + spec_slide_body(
                        e.data.unwrap_or(Seq::empty()),
                        media,
                        img_name,
                        mode,
                    ) + "\n\n---\n\n"@ + spec_slides_md(
                        entries,
                        k + 1,
                        num + 1,
                        media,
                        img_name,
                        mode,
                    )
                } else {
                    spec_slides_md(entries, k + 1, num, media, img_name, mode)
                }
            },
            None => spec_slides_md(entries, k + 1, num, media, img_name, mode),
        }
    }
}

/// The payloads every slide's blips resolve, in slide order.
pub open spec fn spec_slides_files(
    entries: Seq<Option<SpecZipEntry>>,
    k: int,
    media: Seq<(Seq<char>, Seq<u8>)>,
) -> Seq<Seq<u8>>
    decreases entries.len() - k,
    when 0 <= k <= entries.len()
{
    if k >= entries.len() {
        Seq::empty()
    } else {
        match entries[k] {
            Some(e) => {
                if is_slide_name(e.name) {
                    spec_slide_body_files(e.data.unwrap_or(Seq::empty()), media)
                        + spec_slides_files(entries, k + 1, media)
                } else {
                    spec_slides_files(entries, k + 1, media)
                }
            },
            None => spec_slides_files(entries, k + 1, media),
        }
    }
}

/// The whole presentation's Markdown: a fixed document heading, then each
/// slide's numbered section.
pub open spec fn spec_pptx_md(
    entries: Seq<Option<SpecZipEntry>>,
    img_name: Seq<char>,
    mode: ImageProcessingMode,
) -> Seq<char> {
    "# PowerPoint Presentation\n\n"@ + spec_slides_md(
        entries,
        0,
        1,
        spec_media(entries, "ppt/media/"@),
        img_name,
        mode,
    )
}

/// The payloads a whole presentation's blips resolve, in slide order.
pub open spec fn spec_pptx_files(entries: Seq<Option<SpecZipEntry>>) -> Seq<Seq<u8>> {
    spec_slides_files(entries, 0, spec_media(entries, "ppt/media/"@))
}

proof fn lemma_slide_name_free(
    evs: Seq<SpecXmlEvent>,
    i: int,
    acc: Seq<char>,
    media: Seq<(Seq<char>, Seq<u8>)>,
    n1: Seq<char>,
    n2: Seq<char>,
    mode: ImageProcessingMode,
)
    requires
        0 <= i <= evs.len(),
        media.len() == 0,
    ensures
        spec_slide(evs, i, acc, media, n1, mode) == spec_slide(evs, i, acc, media, n2, mode),
    decreases evs.len() - i,
{
    if i < evs.len() {
        match evs[i] {
            SpecXmlEvent::Start { name, embed } => {
                if name == "p:txBody"@ {
                    let r = spec_text_body(evs, i + 1, Seq::empty(), Seq::empty());
                    let j = clamp_next(r.1, i, evs.len() as int);
                    let add = if spec_trim(r.0).len() > 0 {
                        r.0 + "\n\n"@
                    } else {
                        Seq::<char>::empty()
                    };
                    lemma_slide_name_free(evs, j, acc + add, media, n1, n2, mode);
                } else if name == "a:tbl"@ {
                    let r = spec_table(evs, i + 1, Seq::empty());
                    let j = clamp_next(r.1, i, evs.len() as int);
                    lemma_slide_name_free(
                        evs,
                        j,
                        acc + spec_table_md(r.0) + "\n"@,
                        media,
                        n1,
                        n2,
                        mode,
                    );
                } else if name == "a:blip"@ {
                    match embed {
                        SpecEmbed::Present(id) => {
                            assert(spec_find_media(media, id) is None);
                            assert(spec_blip_md(media, id, n1, mode) == spec_blip_md(
                                media,
                                id,
                                n2,
                                mode,
                            ));
                            lemma_slide_name_free(
                                evs,
                                i + 1,
                                acc + spec_blip_md(media, id, n1, mode),
                                media,
                                n1,
                                n2,
                                mode,
                            );
                        },
                        SpecEmbed::Absent => {
                            lemma_slide_name_free(evs, i + 1, acc, media, n1, n2, mode);
                        },
                        SpecEmbed::Malformed => {
                        },
                    }
                } else {
                    lemma_slide_name_free(evs, i + 1, acc, media, n1, n2, mode);
                }
            },
            _ => {
                lemma_slide_name_free(evs, i + 1, acc, media, n1, n2, mode);
            },
        }
    }
}

proof fn lemma_slides_name_free(
    entries: Seq<Option<SpecZipEntry>>,
    k: int,
    num: nat,
    media: Seq<(Seq<char>, Seq<u8>)>,
    n1: Seq<char>,
    n2: Seq<char>,
    mode: ImageProcessingMode,
)
    requires
        0 <= k <= entries.len(),
        media.len() == 0,
    ensures
        spec_slides_md(entries, k, num, media, n1, mode) == spec_slides_md(
            entries,
            k,
            num,
            media,
            n2,
            mode,
        ),
    decreases entries.len() - k,
{
    if k < entries.len() {
        match entries[k] {
            Some(e) => {
                if is_slide_name(e.name) {
                    let bytes = e.data.unwrap_or(Seq::empty());
                    let evs = xml_events_of(bytes);
                    if evs.last() is Eof {
                        lemma_slide_name_free(
                            evs.drop_last(),
                            0,
                            Seq::empty(),
                            media,
                            n1,
                            n2,
                            mode,
                        );
                    }
                    assert(spec_slide_body(bytes, media, n1, mode) == spec_slide_body(
                        bytes,
                        media,
                        n2,
                        mode,
                    ));
                    lemma_slides_name_free(entries, k + 1, num + 1, media, n1, n2, mode);
                } else {
                    lemma_slides_name_free(entries, k + 1, num, media, n1, n2, mode);
                }
            },
            None => {
                lemma_slides_name_free(entries, k + 1, num, media, n1, n2, mode);
            },
        }
    }
}

proof fn lemma_blip_sbn(
    media: Seq<(Seq<char>, Seq<u8>)>,
    id: Seq<char>,
    n1: Seq<char>,
    n2: Seq<char>,
    mode: ImageProcessingMode,
)
    ensures
        crate::text::same_but_name(
            spec_blip_md(media, id, n1, mode),
            spec_blip_md(media, id, n2, mode),
            n1,
            n2,
        ),
{
    match spec_find_media(media, id) {
        Some(data) => {
            crate::text::lemma_sbn_const("!["@, n1, n2);
            crate::text::lemma_sbn_name(n1, n2);
            crate::text::lemma_sbn_concat("!["@, "!["@, n1, n2, n1, n2);
            let a = "!["@ + n1;
            let b = "!["@ + n2;
            let c4 = "\n\n"@;
            crate::text::lemma_sbn_const(c4, n1, n2);
            match mode {
                ImageProcessingMode::Base64 => {
                    let tail = "](data:"@;
                    crate::text::lemma_sbn_const(tail, n1, n2);
                    crate::text::lemma_sbn_concat(a, b, tail, tail, n1, n2);
                    let m = resolved_mime(data);
                    crate::text::lemma_sbn_const(m, n1, n2);
                    crate::text::lemma_sbn_concat(a + tail, b + tail, m, m, n1, n2);
                    let c2 = ";base64,"@;
                    crate::text::lemma_sbn_const(c2, n1, n2);
                    crate::text::lemma_sbn_concat(a + tail + m, b + tail + m, c2, c2, n1, n2);
                    let p = base64_of(data);
                    crate::text::lemma_sbn_const(p, n1, n2);
                    crate::text::lemma_sbn_concat(
                        a + tail + m + c2,
                        b + tail + m + c2,
                        p,
                        p,
                        n1,
                        n2,
                    );
                    let c3 = ")"@;
                    crate::text::lemma_sbn_const(c3, n1, n2);
                    crate::text::lemma_sbn_concat(
                        a + tail + m + c2 + p,
                        b + tail + m + c2 + p,
                        c3,
                        c3,
                        n1,
                        n2,
                    );
                    crate::text::lemma_sbn_concat(
                        a + tail + m + c2 + p + c3,
                        b + tail + m + c2 + p + c3,
                        c4,
                        c4,
                        n1,
                        n2,
                    );
                    assert(spec_blip_md(media, id, n1, mode) == a + tail + m + c2 + p + c3 + c4);
                    assert(spec_blip_md(media, id, n2, mode) == b + tail + m + c2 + p + c3 + c4);
                },
                ImageProcessingMode::SaveToFile => {
                    let c1 = "]("@;
                    crate::text::lemma_sbn_const(c1, n1, n2);
                    crate::text::lemma_sbn_concat(a, b, c1, c1, n1, n2);
                    let dot = "."@;
                    crate::text::lemma_sbn_const(dot, n1, n2);
                    crate::text::lemma_sbn_concat(n1, n2, dot, dot, n1, n2);
                    let ext = mime_extension(resolved_mime(data));
                    crate::text::lemma_sbn_const(ext, n1, n2);
                    crate::text::lemma_sbn_concat(n1 + dot, n2 + dot, ext, ext, n1, n2);
                    let f1 = n1 + dot + ext;
                    let f2 = n2 + dot + ext;
                    crate::text::lemma_sbn_concat(a + c1, b + c1, f1, f2, n1, n2);
                    let c3 = ")"@;
                    crate::text::lemma_sbn_const(c3, n1, n2);
                    crate::text::lemma_sbn_concat(a + c1 + f1, b + c1 + f2, c3, c3, n1, n2);
                    crate::text::lemma_sbn_concat(
                        a + c1 + f1 + c3,
                        b + c1 + f2 + c3,
                        c4,
                        c4,
                        n1,
                        n2,
                    );
                    assert(spec_blip_md(media, id, n1, mode) == a + c1 + f1 + c3 + c4);
                    assert(spec_blip_md(media, id, n2, mode) == b + c1 + f2 + c3 + c4);
                },
            }
        },
        None => {
            crate::text::lemma_sbn_const(spec_blip_md(media, id, n1, mode), n1, n2);
        },
    }
}

proof fn lemma_slide_sbn(
    evs: Seq<SpecXmlEvent>,
    i: int,
    acc1: Seq<char>,
    acc2: Seq<char>,
    media: Seq<(Seq<char>, Seq<u8>)>,
    n1: Seq<char>,
    n2: Seq<char>,
    mode: ImageProcessingMode,
)
    requires
        0 <= i <= evs.len(),
        crate::text::same_but_name(acc1, acc2, n1, n2),
    ensures
        (spec_slide(evs, i, acc1, media, n1, mode) is Some) == (spec_slide(
            evs,
            i,
            acc2,
            media,
            n2,
            mode,
        ) is Some),
        spec_slide(evs, i, acc1, media, n1, mode) matches Some(a) ==> (spec_slide(
            evs,
            i,
            acc2,
            media,
            n2,
            mode,
        ) matches Some(b) && crate::text::same_but_name(a, b, n1, n2)),
    decreases evs.len() - i,
{
    if i < evs.len() {
        match evs[i] {
            SpecXmlEvent::Start { name, embed } => {
                if name == "p:txBody"@ {
                    let r = spec_text_body(evs, i + 1, Seq::empty(), Seq::empty());
                    let j = clamp_next(r.1, i, evs.len() as int);
                    let add = if spec_trim(r.0).len() > 0 {
                        r.0 + "\n\n"@
                    } else {
                        Seq::<char>::empty()
                    };
                    crate::text::lemma_sbn_const(add, n1, n2);
                    crate::text::lemma_sbn_concat(acc1, acc2, add, add, n1, n2);
                    lemma_slide_sbn(evs, j, acc1 + add, acc2 + add, media, n1, n2, mode);
                } else if name == "a:tbl"@ {
                    let r = spec_table(evs, i + 1, Seq::empty());
                    let j = clamp_next(r.1, i, evs.len() as int);
                    let add = spec_table_md(r.0) + "\n"@;
                    crate::text::lemma_sbn_const(add, n1, n2);
                    crate::text::lemma_sbn_concat(acc1, acc2, add, add, n1, n2);
                    assert(acc1 + spec_table_md(r.0) + "\n"@ == acc1 + add);
                    assert(acc2 + spec_table_md(r.0) + "\n"@ == acc2 + add);
                    lemma_slide_sbn(evs, j, acc1 + add, acc2 + add, media, n1, n2, mode);
                } else if name == "a:blip"@ {
                    match embed {
                        SpecEmbed::Present(id) => {
                            lemma_blip_sbn(media, id, n1, n2, mode);
                            crate::text::lemma_sbn_concat(
                                acc1,
                                acc2,
                                spec_blip_md(media, id, n1, mode),
                                spec_blip_md(media, id, n2, mode),
                                n1,
                                n2,
                            );
                            lemma_slide_sbn(
                                evs,
                                i + 1,
                                acc1 + spec_blip_md(media, id, n1, mode),
                                acc2 + spec_blip_md(media, id, n2, mode),
                                media,
                                n1,
                                n2,
                                mode,
                            );
                        },
                        SpecEmbed::Absent => {
                            lemma_slide_sbn(evs, i + 1, acc1, acc2, media, n1, n2, mode);
                        },
                        SpecEmbed::Malformed => {
                        },
                    }
                } else {
                    lemma_slide_sbn(evs, i + 1, acc1, acc2, media, n1, n2, mode);
                }
            },
            _ => {
                lemma_slide_sbn(evs, i + 1, acc1, acc2, media, n1, n2, mode);
            },
        }
    }
}

proof fn lemma_slide_body_sbn(
    bytes: Seq<u8>,
    media: Seq<(Seq<char>, Seq<u8>)>,
    n1: Seq<char>,
    n2: Seq<char>,
    mode: ImageProcessingMode,
)
    ensures
        crate::text::same_but_name(
            spec_slide_body(bytes, media, n1, mode),
            spec_slide_body(bytes, media, n2, mode),
            n1,
            n2,
        ),
{
    let evs = xml_events_of(bytes);
    if evs.last() is Eof {
        crate::text::lemma_sbn_const(Seq::<char>::empty(), n1, n2);
        lemma_slide_sbn(evs.drop_last(), 0, Seq::empty(), Seq::empty(), media, n1, n2, mode);
        match spec_slide(evs.drop_last(), 0, Seq::empty(), media, n1, mode) {
            Some(_) => {
            },
            None => {
                crate::text::lemma_sbn_const(Seq::<char>::empty(), n1, n2);
            },
        }
    } else {
        crate::text::lemma_sbn_const(Seq::<char>::empty(), n1, n2);
    }
}

proof fn lemma_slides_sbn(
    entries: Seq<Option<SpecZipEntry>>,
    k: int,
    num: nat,
    media: Seq<(Seq<char>, Seq<u8>)>,
    n1: Seq<char>,
    n2: Seq<char>,
    mode: ImageProcessingMode,
)
    requires
        0 <= k <= entries.len(),
    ensures
        crate::text::same_but_name(
            spec_slides_md(entries, k, num, media, n1, mode),
            spec_slides_md(entries, k, num, media, n2, mode),
            n1,
            n2,
        ),
    decreases entries.len() - k,
{
    if k >= entries.len() {
        crate::text::lemma_sbn_const(Seq::<char>::empty(), n1, n2);
    } else {
        match entries[k] {
            Some(e) => {
                if is_slide_name(e.name) {
                    let hdr = "## Slide "@ + dec_digits(num) + "\n\n"@;
                    let bytes = e.data.unwrap_or(Seq::empty());
                    let body1 = spec_slide_body(bytes, media, n1, mode);
                    let body2 = spec_slide_body(bytes, media, n2, mode);
                    let sep = "\n\n---\n\n"@;
                    crate::text::lemma_sbn_const(hdr, n1, n2);
                    lemma_slide_body_sbn(bytes, media, n1, n2, mode);
                    crate::text::lemma_sbn_concat(hdr, hdr, body1, body2, n1, n2);
                    crate::text::lemma_sbn_const(sep, n1, n2);
                    crate::text::lemma_sbn_concat(
                        hdr + body1,
                        hdr + body2,
                        sep,
                        sep,
                        n1,
                        n2,
                    );
                    lemma_slides_sbn(entries, k + 1, num + 1, media, n1, n2, mode);
                    crate::text::lemma_sbn_concat(
                        hdr + body1 + sep,
                        hdr + body2 + sep,
                        spec_slides_md(entries, k + 1, num + 1, media, n1, mode),
                        spec_slides_md(entries, k + 1, num + 1, media, n2, mode),
                        n1,
                        n2,
                    );
                    assert(spec_slides_md(entries, k, num, media, n1, mode) == hdr + body1 + sep
                        + spec_slides_md(entries, k + 1, num + 1, media, n1, mode));
                    assert(spec_slides_md(entries, k, num, media, n2, mode) == hdr + body2 + sep
                        + spec_slides_md(entries, k + 1, num + 1, media, n2, mode));
                } else {
                    lemma_slides_sbn(entries, k + 1, num, media, n1, n2, mode);
                }
            },
            None => {
                lemma_slides_sbn(entries, k + 1, num, media, n1, n2, mode);
            },
        }
    }
}

/// Law: two conversions of one presentation at any two clock readings are
/// structurally identical except for the embedded timestamp-derived image
/// name — one list of text segments yields both outputs, with the
/// respective name spliced between the segments.
pub proof fn lemma_pptx_same_but_name(
    entries: Seq<Option<SpecZipEntry>>,
    mode: ImageProcessingMode,
    ts1: int,
    ts2: int,
)
    ensures
        crate::text::same_but_name(
            spec_pptx_md(entries, crate::image::spec_timestamp_name(ts1), mode),
            spec_pptx_md(entries, crate::image::spec_timestamp_name(ts2), mode),
            crate::image::spec_timestamp_name(ts1),
            crate::image::spec_timestamp_name(ts2),
        ),
{
    let n1 = crate::image::spec_timestamp_name(ts1);
    let n2 = crate::image::spec_timestamp_name(ts2);
    let banner = "# PowerPoint Presentation\n\n"@;
    crate::text::lemma_sbn_const(banner, n1, n2);
    lemma_slides_sbn(entries, 0, 1, spec_media(entries, "ppt/media/"@), n1, n2, mode);
    crate::text::lemma_sbn_concat(
        banner,
        banner,
        spec_slides_md(entries, 0, 1, spec_media(entries, "ppt/media/"@), n1, mode),
        spec_slides_md(entries, 0, 1, spec_media(entries, "ppt/media/"@), n2, mode),
        n1,
        n2,
    );
}

/// Law: the conversion draws on the clock only through the generated image
/// name — a presentation whose archive holds no media converts identically
/// at any two clock readings.
pub proof fn lemma_pptx_clock_free(
    entries: Seq<Option<SpecZipEntry>>,
    mode: ImageProcessingMode,
    ts1: int,
    ts2: int,
)
    requires
        spec_media(entries, "ppt/media/"@).len() == 0,
    ensures
        spec_pptx_md(entries, crate::image::spec_timestamp_name(ts1), mode) == spec_pptx_md(
            entries,
            crate::image::spec_timestamp_name(ts2),
            mode,
        ),
{
    lemma_slides_name_free(
        entries,
        0,
        1,
        spec_media(entries, "ppt/media/"@),
        crate::image::spec_timestamp_name(ts1),
        crate::image::spec_timestamp_name(ts2),
        mode,
    );
}

/// Converts a presentation container to Markdown under a chosen image
/// placement mode and image name.
///
/// The archive's media entries are extracted first; then every slide entry,
/// in archive enumeration order, is tokenized and run through the state
/// machine, framed by a `## Slide N` heading and a horizontal rule.
/// Malformed archives and unreadable entries are container errors; a
/// malformed slide is isolated and contributes only its frame. In
/// saved-file mode the result carries every resolved blip payload with its
/// filename, for the caller to write.
pub fn run_with_options(file_stream: &[u8], mode: ImageProcessingMode, img_name: &str) -> (r:
    Result<(String, Vec<(String, Vec<u8>)>), ConvertError>)
    ensures
        r is Err ==> (zip_parse(file_stream@) is None || !pptx_ok(
            zip_parse(file_stream@).unwrap(),
        )),
        r is Ok ==> zip_parse(file_stream@) is Some && pptx_ok(zip_parse(file_stream@).unwrap()),
        r matches Ok(p) ==> p.0@ == spec_pptx_md(
            zip_parse(file_stream@).unwrap(),
            img_name@,
            mode,
        ),
        r matches Ok(p) ==> saved_files_match(
            p.1@,
            spec_pptx_files(zip_parse(file_stream@).unwrap()),
            img_name@,
            mode,
        ),
        r matches Err(e) ==> e is Container,
{
    let bytes = vstd::slice::slice_to_vec(file_stream);
    let mut c = match Container::open(bytes) {
        Ok(c) => c,
        Err(e) => {
            return Err(e);
        },
    };
    let media = match collect_media(&mut c, "ppt/media/") {
        Ok(m) => m,
        Err(e) => {
            return Err(e);
        },
    };
    let ghost entries = c.entries();
    let ghost mv = spec_media(entries, "ppt/media/"@);
    let mut md = String::new();
    let mut files: Vec<(String, Vec<u8>)> = Vec::new();
    let ghost mut gall: Seq<Seq<u8>> = Seq::empty();
    md.append("# PowerPoint Presentation\n\n");
    let n = c.len();
    let mut num: u128 = 1;
    let mut i: usize = 0;
    proof {
        assert(gall + spec_slides_files(entries, 0, mv) =~= spec_pptx_files(entries));
    }
    while i < n
        invariant
            0 <= i <= n == c.entries().len(),
            zip_parse(file_stream@) is Some,
            entries == zip_parse(file_stream@).unwrap(),
            entries == c.entries(),
            mv == spec_media(entries, "ppt/media/"@),
            media_view(media@) == mv,
            media_ok(entries, "ppt/media/"@),
            1 <= num <= i + 1,
            forall|k: int|
                0 <= k < i ==> ((#[trigger] entries[k]) matches Some(e) && (is_slide_name(e.name)
                    ==> e.data is Some && vstd::utf8::valid_utf8(e.data.unwrap()))),
            md@ + spec_slides_md(entries, i as int, num as nat, mv, img_name@, mode)
                == spec_pptx_md(entries, img_name@, mode),
            gall + spec_slides_files(entries, i as int, mv) == spec_pptx_files(entries),
            saved_files_match(files@, gall, img_name@, mode),
        decreases n - i,
    {
        let name = match c.entry_name(i) {
            Ok(nm) => nm,
            Err(e) => {
                proof {
                    assert(!media_ok(c.entries(), "ppt/media/"@));
                }
                return Err(e);
            },
        };
        let name_chars = chars_of_str(name.as_str());
        proof {
            assert(name_chars@ == entries[i as int].unwrap().name);
        }
        if chars_start_with(&name_chars, "ppt/slides/") && chars_end_with(&name_chars, ".xml") {
            assert(is_slide_name(entries[i as int].unwrap().name));
            let ghost md0 = md@;
            md.append("## Slide ");
            let num_chars = u128_to_chars(num);
            let num_str = string_from_chars(&num_chars);
            md.append(num_str.as_str());
            md.append("\n\n");
            let data = match c.entry_data(i) {
                Ok(d) => d,
                Err(e) => {
                    proof {
                        let ee = entries[i as int].unwrap();
                        assert(is_slide_name(ee.name));
                        assert(!(ee.data is Some));
                        assert(!pptx_ok(entries));
                    }
                    return Err(e);
                },
            };
            match crate::text::bytes_to_str(&data) {
                Some(_) => {},
                None => {
                    proof {
                        let ee = entries[i as int].unwrap();
                        assert(is_slide_name(ee.name));
                        assert(data@ == ee.data.unwrap());
                        assert(!pptx_ok(entries));
                    }
                    return Err(
                        ConvertError::Container(
                            String::from_str("slide entry is not valid UTF-8"),
                        ),
                    );
                },
            }
            let ghost e = entries[i as int].unwrap();
            let ghost gall0 = gall;
            match tokenize_slide(data) {
                Ok(evs) => {
                    match parse_slide_content(&evs, &media, img_name, &mode) {
                        Ok(body_pair) => {
                            let (body, mut slide_files) = body_pair;
                            md.append(body.as_str());
                            proof {
                                let fs = spec_slide_files(
                                    evs_view(evs@),
                                    0,
                                    Seq::empty(),
                                    mv,
                                ).unwrap();
                                assert(spec_slide_body_files(e.data.unwrap(), mv) == fs);
                                lemma_sfm_concat(
                                    files@,
                                    slide_files@,
                                    gall,
                                    fs,
                                    img_name@,
                                    mode,
                                );
                                gall = gall + fs;
                            }
                            files.append(&mut slide_files);
                        },
                        Err(_) => {
                            // the slide is isolated: only its frame remains
                            proof {
                                lemma_slide_files_none_iff(
                                    evs_view(evs@),
                                    0,
                                    Seq::empty(),
                                    Seq::empty(),
                                    mv,
                                    img_name@,
                                    mode,
                                );
                                assert(spec_slide_body_files(e.data.unwrap(), mv)
                                    =~= Seq::<Seq<u8>>::empty());
                                assert(gall + spec_slide_body_files(e.data.unwrap(), mv)
                                    =~= gall);
                            }
                        },
                    }
                },
                Err(_) => {
                    // malformed markup: the slide is isolated
                    proof {
                        assert(spec_slide_body_files(e.data.unwrap(), mv)
                            =~= Seq::<Seq<u8>>::empty());
                        assert(gall + spec_slide_body_files(e.data.unwrap(), mv) =~= gall);
                    }
                },
            }
            md.append("\n\n---\n\n");
            proof {
                assert(e.data.unwrap_or(Seq::empty()) == e.data.unwrap());
                assert(md@ =~= md0 + ("## Slide "@ + dec_digits(num as nat) + "\n\n"@
                    + spec_slide_body(e.data.unwrap(), mv, img_name@, mode) + "\n\n---\n\n"@));
                assert(gall =~= gall0 + spec_slide_body_files(e.data.unwrap(), mv));
                assert(spec_slides_files(entries, i as int, mv) == spec_slide_body_files(
                    e.data.unwrap(),
                    mv,
                ) + spec_slides_files(entries, i + 1, mv));
                assert(gall + spec_slides_files(entries, i + 1, mv) =~= spec_pptx_files(entries));
            }
            num = num + 1;
        }
        i = i + 1;
    }
    proof {
        assert(spec_slides_md(entries, n as int, num as nat, mv, img_name@, mode)
            =~= Seq::<char>::empty());
        assert(md@ =~= spec_pptx_md(entries, img_name@, mode));
        assert(spec_slides_files(entries, n as int, mv) =~= Seq::<Seq<u8>>::empty());
        assert(gall =~= spec_pptx_files(entries));
    }
    Ok((md, files))
}

/// Converts a presentation container to Markdown with inline base64 image
/// placement, naming embedded images once per conversion from the clock.
pub fn run(file_stream: &[u8]) -> (r: Result<String, ConvertError>)
    ensures
        r is Err ==> (zip_parse(file_stream@) is None || !pptx_ok(
            zip_parse(file_stream@).unwrap(),
        )),
        r is Ok ==> zip_parse(file_stream@) is Some && pptx_ok(zip_parse(file_stream@).unwrap()),
        r matches Ok(md) ==> exists|ts: int|
            md@ == spec_pptx_md(
                zip_parse(file_stream@).unwrap(),
                #[trigger] crate::image::spec_timestamp_name(ts),
                ImageProcessingMode::Base64,
            ),
        r matches Err(e) ==> e is Container,
{
    let ts = crate::image::now_timestamp();
    let img_name = crate::image::timestamp_name(ts);
    match run_with_options(file_stream, ImageProcessingMode::Base64, img_name.as_str()) {
        Ok(p) => {
            proof {
                assert(p.0@ == spec_pptx_md(
                    zip_parse(file_stream@).unwrap(),
                    crate::image::spec_timestamp_name(ts as int),
                    ImageProcessingMode::Base64,
                ));
            }
            Ok(p.0)
        },
        Err(e) => Err(e),
    }
}

proof fn lemma_sfm_concat(
    p1: Seq<(String, Vec<u8>)>,
    p2: Seq<(String, Vec<u8>)>,
    g1: Seq<Seq<u8>>,
    g2: Seq<Seq<u8>>,
    img_name: Seq<char>,
    mode: ImageProcessingMode,
)
    requires
        saved_files_match(p1, g1, img_name, mode),
        saved_files_match(p2, g2, img_name, mode),
    ensures
        saved_files_match(p1 + p2, g1 + g2, img_name, mode),
{
    match mode {
        ImageProcessingMode::Base64 => {
            assert((p1 + p2).len() == 0);
        },
        ImageProcessingMode::SaveToFile => {
            assert forall|i: int| 0 <= i < (p1 + p2).len() implies (((#[trigger] (p1 + p2)[i]).1@
                == (g1 + g2)[i]) && (p1 + p2)[i].0@ == img_name + "."@ + mime_extension(
                resolved_mime((g1 + g2)[i]),
            )) by {
                if i < p1.len() {
                    assert((p1 + p2)[i] == p1[i]);
                    assert((g1 + g2)[i] == g1[i]);
                } else {
                    assert((p1 + p2)[i] == p2[i - p1.len()]);
                    assert((g1 + g2)[i] == g2[i - g1.len()]);
                }
            }
        },
    }
}

} // verus!
