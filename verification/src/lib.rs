//! Conversion of heterogeneous document formats (word-processing and
//! presentation containers, spreadsheets, CSV, HTML, images) into a single
//! normalized Markdown representation.
//!
//! The crate root holds the format dispatcher: it sniffs a buffer's content
//! type, falls back to extension-based resolution for ambiguous container
//! types, and routes to the per-format converters.

pub mod config;
pub mod container;
pub mod csvmd;
pub mod docx;
pub mod errors;
pub mod heading;
pub mod htmlmd;
pub mod image;
pub mod pptx;
pub mod table;
pub mod text;
pub mod xlsx;

use vstd::prelude::*;
use crate::errors::ConvertError;
use crate::image::sniffed_mime;
use crate::text::{chars_of_str, lower, lower_chars, str_eq, string_from_chars};

verus! {

/// Raw input for one conversion call: a byte buffer plus the optional
/// originating path, which is only consulted for extension-based fallback
/// when content sniffing is ambiguous.
pub struct ConverterFile {
    pub file_path: Option<String>,
    pub file_stream: Vec<u8>,
}

/// The index of the last occurrence of `c` in `s`, or `-1`.
pub open spec fn last_index_of(s: Seq<char>, c: char) -> int
    decreases s.len(),
{
    if s.len() == 0 {
        -1
    } else if s.last() == c {
        s.len() - 1
    } else {
        last_index_of(s.drop_last(), c)
    }
}

/// The final path segment: everything after the last `/`.
pub open spec fn file_name_of(path: Seq<char>) -> Seq<char> {
    path.subrange(last_index_of(path, '/') + 1, path.len() as int)
}

/// The extension of a path: the part of the final segment after its last
/// `.`, provided that dot is not the segment's first character.
pub open spec fn spec_extension(path: Seq<char>) -> Option<Seq<char>> {
    let name = file_name_of(path);
    let p = last_index_of(name, '.');
    if p <= 0 {
        None
    } else {
        Some(name.subrange(p + 1, name.len() as int))
    }
}

/// The MIME type registered for a lower-cased extension.
pub open spec fn ext_mime_table(e: Seq<char>) -> Option<Seq<char>> {
    if e == "docx"@ {
        Some("application/vnd.openxmlformats-officedocument.wordprocessingml.document"@)
    } else if e == "xlsx"@ {
        Some("application/vnd.openxmlformats-officedocument.spreadsheetml.sheet"@)
    } else if e == "pptx"@ {
        Some("application/vnd.openxmlformats-officedocument.presentationml.presentation"@)
    } else if e == "csv"@ {
        Some("text/csv"@)
    } else if e == "wav"@ {
        Some("audio/wav"@)
    } else if e == "jpg"@ || e == "jpeg"@ {
        Some("image/jpeg"@)
    } else if e == "png"@ {
        Some("image/png"@)
    } else if e == "gif"@ {
        Some("image/gif"@)
    } else if e == "html"@ || e == "htm"@ {
        Some("text/html"@)
    } else {
        None
    }
}

/// The MIME type a path's extension maps to, case-insensitively.
pub open spec fn spec_ext_mime(path: Seq<char>) -> Option<Seq<char>> {
    match spec_extension(path) {
        None => None,
        Some(x) => ext_mime_table(lower(x)),
    }
}

pub(crate) proof fn lemma_last_index_bounds(s: Seq<char>, c: char)
    ensures
        -1 <= last_index_of(s, c) < s.len(),
    decreases s.len(),
{
    if s.len() > 0 && s.last() != c {
        lemma_last_index_bounds(s.drop_last(), c);
    }
}

/// Finds the last occurrence of `c`, as an index plus one (zero when
/// absent).
pub(crate) fn rfind_char(v: &Vec<char>, c: char) -> (r: usize)
    ensures
        r == last_index_of(v@, c) + 1,
{
    let mut i: usize = v.len();
    proof {
        assert(v@.subrange(0, v@.len() as int) =~= v@);
    }
    while i > 0
        invariant
            0 <= i <= v@.len(),
            last_index_of(v@, c) == last_index_of(v@.subrange(0, i as int), c),
        decreases i,
    {
        proof {
            let pre = v@.subrange(0, i as int);
            assert(pre.last() == v@[i - 1]);
            assert(pre.drop_last() =~= v@.subrange(0, i - 1));
        }
        if v[i - 1] == c {
            proof {
                assert(last_index_of(v@.subrange(0, i as int), c) == i - 1);
            }
            return i;
        }
        i = i - 1;
    }
    proof {
        assert(v@.subrange(0, 0) =~= Seq::<char>::empty());
    }
    0
}

/// Extracts the lower-cased extension of a path, as the dispatcher's
/// fallback resolution uses it.
fn extension_lower(path: &str) -> (r: Option<Vec<char>>)
    ensures
        (match spec_extension(path@) {
            None => r is None,
            Some(x) => r matches Some(v) && v@ == lower(x),
        }),
{
    let chars = chars_of_str(path);
    proof {
        lemma_last_index_bounds(chars@, '/');
    }
    let slash_end = rfind_char(&chars, '/');
    let mut name: Vec<char> = Vec::new();
    let mut i: usize = slash_end;
    proof {
        assert(name@ =~= chars@.subrange(slash_end as int, slash_end as int));
    }
    while i < chars.len()
        invariant
            slash_end <= i <= chars@.len(),
            name@ == chars@.subrange(slash_end as int, i as int),
        decreases chars@.len() - i,
    {
        name.push(chars[i]);
        proof {
            assert(name@ =~= chars@.subrange(slash_end as int, i + 1));
        }
        i = i + 1;
    }
    proof {
        assert(name@ == file_name_of(path@));
    }
    proof {
        lemma_last_index_bounds(name@, '.');
    }
    let dot_end = rfind_char(&name, '.');
    if dot_end <= 1 {
        return None;
    }
    let mut ext: Vec<char> = Vec::new();
    let mut j: usize = dot_end;
    proof {
        assert(ext@ =~= name@.subrange(dot_end as int, dot_end as int));
    }
    while j < name.len()
        invariant
            dot_end <= j <= name@.len(),
            ext@ == name@.subrange(dot_end as int, j as int),
        decreases name@.len() - j,
    {
        ext.push(name[j]);
        proof {
            assert(ext@ =~= name@.subrange(dot_end as int, j + 1));
        }
        j = j + 1;
    }
    proof {
        assert(ext@ == name@.subrange(dot_end as int, name@.len() as int));
    }
    Some(lower_chars(&ext))
}

/// Maps a path to the MIME type its extension suggests.
pub fn get_file_type_from_extension(file_path: &Option<String>) -> (r: Option<&'static str>)
    ensures
        (match file_path {
            None => r is None,
            Some(p) => (match spec_ext_mime(p@) {
                None => r is None,
                Some(m) => r matches Some(s) && s@ == m,
            }),
        }),
{
    let path = match file_path {
        Some(p) => p,
        None => {
            return None;
        },
    };
    let ext = match extension_lower(path.as_str()) {
        Some(e) => e,
        None => {
            return None;
        },
    };
    let e = string_from_chars(&ext);
    if str_eq(e.as_str(), "docx") {
        Some("application/vnd.openxmlformats-officedocument.wordprocessingml.document")
    } else if str_eq(e.as_str(), "xlsx") {
        Some("application/vnd.openxmlformats-officedocument.spreadsheetml.sheet")
    } else if str_eq(e.as_str(), "pptx") {
        Some("application/vnd.openxmlformats-officedocument.presentationml.presentation")
    } else if str_eq(e.as_str(), "csv") {
        Some("text/csv")
    } else if str_eq(e.as_str(), "wav") {
        Some("audio/wav")
    } else if str_eq(e.as_str(), "jpg") || str_eq(e.as_str(), "jpeg") {
        Some("image/jpeg")
    } else if str_eq(e.as_str(), "png") {
        Some("image/png")
    } else if str_eq(e.as_str(), "gif") {
        Some("image/gif")
    } else if str_eq(e.as_str(), "html") || str_eq(e.as_str(), "htm") {
        Some("text/html")
    } else {
        None
    }
}

/// The view of an optional path.
pub open spec fn opt_path_view(p: Option<String>) -> Option<Seq<char>> {
    match p {
        Some(s) => Some(s@),
        None => None,
    }
}

/// The MIME type one conversion resolves: the sniffed type, with
/// extension-based fallback for the ambiguous generic ZIP and plain-text
/// types; `None` when sniffing resolves nothing.
pub open spec fn spec_resolved_mime(bytes: Seq<u8>, path: Option<Seq<char>>) -> Option<Seq<char>> {
    match sniffed_mime(bytes) {
        None => None,
        Some(m) => {
            if m == "application/zip"@ || m == "text/plain"@ {
                match (match path {
                    Some(p) => spec_ext_mime(p),
                    None => None,
                }) {
                    Some(e) => Some(e),
                    None => Some(m),
                }
            } else {
                Some(m)
            }
        },
    }
}

/// Resolves the MIME type for a buffer and its optional originating path.
pub fn resolve_mime(stream: &Vec<u8>, path: &Option<String>) -> (r: Option<String>)
    ensures
        (match spec_resolved_mime(stream@, opt_path_view(*path)) {
            None => r is None,
            Some(m) => r matches Some(s) && s@ == m,
        }),
{
    let sniffed = match crate::image::sniff_mime(stream) {
        Some(m) => m,
        None => {
            return None;
        },
    };
    if str_eq(sniffed.as_str(), "application/zip") || str_eq(sniffed.as_str(), "text/plain") {
        match get_file_type_from_extension(path) {
            Some(e) => Some(String::from_str(e)),
            None => Some(sniffed),
        }
    } else {
        Some(sniffed)
    }
}

/// The converter a resolved MIME type routes to.
#[derive(Debug, PartialEq, Eq, Structural)]
pub enum Route {
    Wav,
    Docx,
    Image,
    Pptx,
    Xlsx,
    Csv,
    Html,
    Unsupported,
}

/// The routing table over resolved MIME types.
pub open spec fn spec_route(mime: Seq<char>) -> Route {
    if mime == "audio/x-wav"@ || mime == "audio/wav"@ || mime == "audio/wave"@ {
        Route::Wav
    } else if mime == "application/vnd.openxmlformats-officedocument.wordprocessingml.document"@ {
        Route::Docx
    } else if mime == "image/jpeg"@ || mime == "image/png"@ || mime == "image/gif"@ {
        Route::Image
    } else if mime
        == "application/vnd.openxmlformats-officedocument.presentationml.presentation"@ {
        Route::Pptx
    } else if mime == "application/vnd.openxmlformats-officedocument.spreadsheetml.sheet"@ {
        Route::Xlsx
    } else if mime == "text/csv"@ || mime == "application/csv"@ {
        Route::Csv
    } else if mime == "text/html"@ {
        Route::Html
    } else {
        Route::Unsupported
    }
}

/// Routes a resolved MIME type.
pub fn route_of_mime(mime: &str) -> (r: Route)
    ensures
        r == spec_route(mime@),
{
    if str_eq(mime, "audio/x-wav") || str_eq(mime, "audio/wav") || str_eq(mime, "audio/wave") {
        Route::Wav
    } else if str_eq(
        mime,
        "application/vnd.openxmlformats-officedocument.wordprocessingml.document",
    ) {
        Route::Docx
    } else if str_eq(mime, "image/jpeg") || str_eq(mime, "image/png") || str_eq(
        mime,
        "image/gif",
    ) {
        Route::Image
    } else if str_eq(
        mime,
        "application/vnd.openxmlformats-officedocument.presentationml.presentation",
    ) {
        Route::Pptx
    } else if str_eq(
        mime,
        "application/vnd.openxmlformats-officedocument.spreadsheetml.sheet",
    ) {
        Route::Xlsx
    } else if str_eq(mime, "text/csv") || str_eq(mime, "application/csv") {
        Route::Csv
    } else if str_eq(mime, "text/html") {
        Route::Html
    } else {
        Route::Unsupported
    }
}

/// Law: dispatcher fallback — a buffer sniffed as a generic ZIP container
/// whose originating path carries the presentation extension resolves to
/// the presentation document type and routes to the presentation
/// converter, never to the unsupported route.
pub proof fn lemma_zip_fallback_routes_pptx(bytes: Seq<u8>, path: Seq<char>)
    requires
        sniffed_mime(bytes) == Some("application/zip"@),
        spec_extension(path) == Some("pptx"@),
    ensures
        spec_resolved_mime(bytes, Some(path)) == Some(
            "application/vnd.openxmlformats-officedocument.presentationml.presentation"@,
        ),
        spec_route(spec_resolved_mime(bytes, Some(path)).unwrap()) == Route::Pptx,
{
    reveal_strlit("pptx");
    reveal_strlit("docx");
    reveal_strlit("xlsx");
    assert(lower("pptx"@) =~= "pptx"@) by {
        assert(lower("pptx"@).len() == 4);
        assert(lower("pptx"@)[0] == crate::text::lower_char('p'));
        assert(lower("pptx"@)[1] == crate::text::lower_char('p'));
        assert(lower("pptx"@)[2] == crate::text::lower_char('t'));
        assert(lower("pptx"@)[3] == crate::text::lower_char('x'));
    }
    assert(lower("pptx"@) != "docx"@) by {
        assert(("pptx"@)[0] != ("docx"@)[0]);
    }
    assert(lower("pptx"@) != "xlsx"@) by {
        assert(("pptx"@)[0] != ("xlsx"@)[0]);
    }
    assert(spec_ext_mime(path) == Some(
        "application/vnd.openxmlformats-officedocument.presentationml.presentation"@,
    ));
    let m = "application/vnd.openxmlformats-officedocument.presentationml.presentation"@;
    reveal_strlit("application/vnd.openxmlformats-officedocument.presentationml.presentation");
    reveal_strlit("application/zip");
    reveal_strlit("text/plain");
    reveal_strlit("audio/x-wav");
    reveal_strlit("audio/wav");
    reveal_strlit("audio/wave");
    reveal_strlit("application/vnd.openxmlformats-officedocument.wordprocessingml.document");
    reveal_strlit("image/jpeg");
    reveal_strlit("image/png");
    reveal_strlit("image/gif");
    assert(m.len() == 73);
    assert(spec_route(m) == Route::Pptx);
}

/// Converts one document to Markdown, routing by sniffed content type with
/// extension fallback for ambiguous container types.
///
/// The audio and spreadsheet routes need external collaborators (a speech
/// recognizer, a cell-grid reader) that the library does not drive itself;
/// for those this function reports an unsupported format, and the caller
/// routes to the collaborator using [`resolve_mime`] and [`route_of_mime`].
pub fn convert(file: ConverterFile) -> (r: Result<String, ConvertError>)
    ensures
        spec_resolved_mime(file.file_stream@, opt_path_view(file.file_path)) is None ==> (
        r matches Err(e) && (e matches ConvertError::UnsupportedFormat(d) && d@
            == "could not determine file type"@)),
        spec_resolved_mime(file.file_stream@, opt_path_view(file.file_path)) matches Some(m)
            ==> (match spec_route(m) {
            Route::Docx => (r is Ok <==> crate::docx::docx_converts(file.file_stream@)) && (
            r matches Err(e) ==> (e is Container || e is DocumentParse)) && (
            crate::container::zip_parse(file.file_stream@) is None ==> (r matches Err(e)
                && e is Container)) && (r matches Ok(md) ==> exists|ts: int|
                crate::docx::spec_docx_md(
                    crate::docx::docx_model_of(file.file_stream@).unwrap(),
                    #[trigger] crate::docx::spec_drawing(
                        crate::container::spec_media(
                            crate::container::zip_parse(file.file_stream@).unwrap(),
                            "word/media/"@,
                        ),
                        crate::image::spec_timestamp_name(ts),
                        crate::image::ImageProcessingMode::Base64,
                    ),
                ) == Some(md@)),
            Route::Pptx => (r matches Err(e) ==> e is Container) && (r is Ok <==> (
            crate::container::zip_parse(file.file_stream@) is Some && crate::pptx::pptx_ok(
                crate::container::zip_parse(file.file_stream@).unwrap(),
            ))) && (r matches Ok(md) ==> exists|ts: int|
                md@ == crate::pptx::spec_pptx_md(
                    crate::container::zip_parse(file.file_stream@).unwrap(),
                    #[trigger] crate::image::spec_timestamp_name(ts),
                    crate::image::ImageProcessingMode::Base64,
                )),
            Route::Image => (r is Err <==> file.file_stream@.len() == 0) && (r matches Ok(md)
                ==> exists|ts: int|
                md@ == crate::image::spec_image_result(
                    file.file_stream@,
                    crate::image::ImageProcessingMode::Base64,
                    ts,
                )),
            Route::Csv => (match crate::csvmd::spec_csv_md(file.file_stream@) {
                Some(md) => if md.len() > 0 {
                    r matches Ok(s) && s@ == md
                } else {
                    r matches Err(e) && e is DocumentParse
                },
                None => r matches Err(e) && e is DocumentParse,
            }),
            Route::Html => (r matches Ok(md) ==> md@ == crate::htmlmd::html_md_of(
                vstd::utf8::decode_utf8(file.file_stream@),
            )) && (vstd::utf8::valid_utf8(file.file_stream@) ==> (r is Ok
                <==> crate::text::spec_trim(
                crate::htmlmd::html_md_of(vstd::utf8::decode_utf8(file.file_stream@)),
            ).len() > 0)),
            Route::Wav => r matches Err(e) && (e matches ConvertError::UnsupportedFormat(d)
                && d@ == m),
            Route::Xlsx => r matches Err(e) && (e matches ConvertError::UnsupportedFormat(d)
                && d@ == m),
            Route::Unsupported => r matches Err(e) && (e matches ConvertError::UnsupportedFormat(
                d,
            ) && d@ == m),
        }),
{
    let mime = match resolve_mime(&file.file_stream, &file.file_path) {
        Some(m) => m,
        None => {
            return Err(
                ConvertError::UnsupportedFormat(
                    String::from_str("could not determine file type"),
                ),
            );
        },
    };
    let route = route_of_mime(mime.as_str());
    match route {
        Route::Docx => crate::docx::run(file.file_stream.as_slice()),
        Route::Pptx => crate::pptx::run(file.file_stream.as_slice()),
        Route::Image => crate::image::run(&file.file_stream),
        Route::Csv => crate::csvmd::run(file.file_stream.as_slice()),
        Route::Html => crate::htmlmd::run(file.file_stream.as_slice()),
        Route::Wav => Err(ConvertError::UnsupportedFormat(mime)),
        Route::Xlsx => Err(ConvertError::UnsupportedFormat(mime)),
        Route::Unsupported => Err(ConvertError::UnsupportedFormat(mime)),
    }
}

} // verus!
