//! The image resolver: names an embedded image, sniffs its content type,
//! and renders either an inline base64 data-URI or a saved-file reference.
//!
//! Naming never fails a conversion: when no better name is available the
//! resolver falls back to a timestamp-derived one.

use vstd::prelude::*;
use crate::errors::ConvertError;
use crate::text::{dec_int, i64_to_chars, push_str_chars, str_eq, string_from_chars};

verus! {

/// How an embedded image is placed into the Markdown output.
pub enum ImageProcessingMode {
    /// Embed the payload inline as a base64 data-URI.
    Base64,
    /// Reference a file saved beside the output; the caller performs the
    /// actual write.
    SaveToFile,
}

/// What content sniffing reports for a byte buffer: the MIME type of the
/// first matching magic-byte pattern, or `None` when nothing matches. The
/// result depends on the bytes alone.
pub uninterp spec fn sniffed_mime(bytes: Seq<u8>) -> Option<Seq<char>>;

/// Relies on `infer::get`: magic-byte content sniffing of a buffer.
#[verifier::external_body]
pub(crate) fn sniff_mime(bytes: &Vec<u8>) -> (r: Option<String>)
    ensures
        match r {
            Some(m) => sniffed_mime(bytes@) == Some(m@),
            None => sniffed_mime(bytes@) is None,
        },
{
    infer::get(bytes.as_slice()).map(|k| String::from(k.mime_type()))
}

/// The standard (padded) base64 encoding of a byte buffer; the result
/// depends on the bytes alone.
pub uninterp spec fn base64_of(bytes: Seq<u8>) -> Seq<char>;

/// Relies on `base64::engine::general_purpose::STANDARD`'s `encode`: the
/// padded standard-alphabet encoding, four output characters for every
/// three input bytes begun.
#[verifier::external_body]
fn base64_encode(bytes: &Vec<u8>) -> (r: String)
    ensures
        r@ == base64_of(bytes@),
        r@.len() == ((bytes@.len() + 2) / 3) * 4,
{
    base64::Engine::encode(&base64::engine::general_purpose::STANDARD, bytes.as_slice())
}

/// Relies on `chrono::Utc::now().timestamp()`: the wall clock, about which
/// nothing is promised.
#[verifier::external_body]
pub(crate) fn now_timestamp() -> i64 {
    chrono::Utc::now().timestamp()
}

/// The timestamp-derived fallback image name.
pub open spec fn spec_timestamp_name(ts: int) -> Seq<char> {
    "pic-"@ + dec_int(ts)
}

/// Builds the fallback image name for one clock reading.
pub fn timestamp_name(ts: i64) -> (r: String)
    ensures
        r@ == spec_timestamp_name(ts as int),
{
    let digits = i64_to_chars(ts);
    let mut out: Vec<char> = Vec::new();
    push_str_chars(&mut out, "pic-");
    let mut i: usize = 0;
    while i < digits.len()
        invariant
            0 <= i <= digits@.len(),
            out@ == "pic-"@ + digits@.subrange(0, i as int),
        decreases digits@.len() - i,
    {
        out.push(digits[i]);
        proof {
            assert(out@ =~= "pic-"@ + digits@.subrange(0, i + 1));
        }
        i = i + 1;
    }
    proof {
        assert(digits@.subrange(0, digits@.len() as int) =~= digits@);
    }
    string_from_chars(&out)
}

/// The MIME type used for a buffer: the sniffed type, defaulting to JPEG
/// when sniffing resolves nothing.
pub open spec fn resolved_mime(bytes: Seq<u8>) -> Seq<char> {
    match sniffed_mime(bytes) {
        Some(m) => m,
        None => "image/jpeg"@,
    }
}

/// The file extension for an image MIME type; unknown types fall back to
/// `jpg`.
pub open spec fn mime_extension(mime: Seq<char>) -> Seq<char> {
    if mime == "image/png"@ {
        "png"@
    } else if mime == "image/gif"@ {
        "gif"@
    } else if mime == "image/webp"@ {
        "webp"@
    } else {
        "jpg"@
    }
}

fn mime_extension_exec(mime: &str) -> (r: &'static str)
    ensures
        r@ == mime_extension(mime@),
{
    if str_eq(mime, "image/png") {
        "png"
    } else if str_eq(mime, "image/gif") {
        "gif"
    } else if str_eq(mime, "image/webp") {
        "webp"
    } else {
        "jpg"
    }
}

/// The inline Markdown image for a named base64 payload.
pub open spec fn spec_base64_image_md(name: Seq<char>, mime: Seq<char>, payload: Seq<char>) -> Seq<
    char,
> {
    "!["@ + name + "](data:"@ + mime + ";base64,"@ + payload + ")"@
}

/// The saved-file Markdown image reference.
pub open spec fn spec_file_image_md(name: Seq<char>, filename: Seq<char>) -> Seq<char> {
    "!["@ + name + "]("@ + filename + ")"@
}

/// Renders the inline data-URI Markdown image for a buffer under a given
/// name: the payload is the standard base64 encoding of the bytes, and the
/// MIME type is sniffed from their content.
pub fn image_markdown_base64(bytes: &Vec<u8>, name: &str) -> (r: String)
    ensures
        r@ == spec_base64_image_md(name@, resolved_mime(bytes@), base64_of(bytes@)),
{
    let mime = match sniff_mime(bytes) {
        Some(m) => m,
        None => String::from_str("image/jpeg"),
    };
    let encoded = base64_encode(bytes);
    let mut out: Vec<char> = Vec::new();
    push_str_chars(&mut out, "![");
    push_str_chars(&mut out, name);
    push_str_chars(&mut out, "](data:");
    push_str_chars(&mut out, mime.as_str());
    push_str_chars(&mut out, ";base64,");
    push_str_chars(&mut out, encoded.as_str());
    push_str_chars(&mut out, ")");
    proof {
        assert(out@ =~= spec_base64_image_md(name@, resolved_mime(bytes@), base64_of(bytes@)));
    }
    string_from_chars(&out)
}

/// Computes the saved-file reference for a buffer under a given name: the
/// filename joins the name with the sniffed extension, and the Markdown
/// references exactly that filename. The caller is responsible for writing
/// the payload to the returned filename.
pub fn saved_image_reference(bytes: &Vec<u8>, name: &str) -> (r: (String, String))
    ensures
        r.0@ == name@ + "."@ + mime_extension(resolved_mime(bytes@)),
        r.1@ == spec_file_image_md(name@, r.0@),
{
    let mime = match sniff_mime(bytes) {
        Some(m) => m,
        None => String::from_str("image/jpeg"),
    };
    let ext = mime_extension_exec(mime.as_str());
    let mut fname: Vec<char> = Vec::new();
    push_str_chars(&mut fname, name);
    push_str_chars(&mut fname, ".");
    push_str_chars(&mut fname, ext);
    let filename = string_from_chars(&fname);
    let mut out: Vec<char> = Vec::new();
    push_str_chars(&mut out, "![");
    push_str_chars(&mut out, name);
    push_str_chars(&mut out, "](");
    push_str_chars(&mut out, filename.as_str());
    push_str_chars(&mut out, ")");
    proof {
        assert(fname@ =~= name@ + "."@ + mime_extension(resolved_mime(bytes@)));
        assert(out@ =~= spec_file_image_md(name@, filename@));
    }
    (filename, string_from_chars(&out))
}

/// `s` with every occurrence of `from` replaced by `to`, scanning left to
/// right without overlap.
pub open spec fn spec_replace(s: Seq<char>, from: Seq<char>, to: Seq<char>) -> Seq<char>
    decreases s.len(),
    when from.len() > 0
{
    if s.len() < from.len() {
        s
    } else if s.subrange(0, from.len() as int) == from {
        to + spec_replace(s.skip(from.len() as int), from, to)
    } else {
        seq![s[0]] + spec_replace(s.drop_first(), from, to)
    }
}

/// Tests whether `v` carries `p` at offset `at`.
fn matches_at(v: &Vec<char>, at: usize, p: &Vec<char>) -> (r: bool)
    requires
        at + p@.len() <= v@.len(),
    ensures
        r == (v@.subrange(at as int, at + p@.len()) == p@),
{
    let n = v.len();
    let plen = p.len();
    let mut j: usize = 0;
    while j < plen && v[at + j] == p[j]
        invariant
            0 <= j <= plen == p@.len(),
            at + plen <= n == v@.len(),
            forall|k: int| 0 <= k < j ==> v@[at + k] == p@[k],
        decreases plen - j,
    {
        j = j + 1;
    }
    let j_done = j == plen;
    if j_done {
        proof {
            assert(v@.subrange(at as int, at + p@.len()) =~= p@);
        }
        true
    } else {
        proof {
            assert(v@[at + j] != p@[j as int]);
            if v@.subrange(at as int, at + p@.len()) == p@ {
                assert(v@.subrange(at as int, at + p@.len())[j as int] == p@[j as int]);
            }
        }
        false
    }
}

/// Replaces every occurrence of `from` in `v` by `to`.
fn replace_all(v: &Vec<char>, from: &Vec<char>, to: &Vec<char>) -> (r: Vec<char>)
    requires
        from@.len() > 0,
    ensures
        r@ == spec_replace(v@, from@, to@),
{
    let n = v.len();
    let flen = from.len();
    let mut out: Vec<char> = Vec::new();
    let mut i: usize = 0;
    proof {
        assert(v@.skip(0) =~= v@);
    }
    while i < n
        invariant
            0 <= i <= n == v@.len(),
            0 < flen == from@.len(),
            spec_replace(v@, from@, to@) == out@ + spec_replace(v@.skip(i as int), from@, to@),
        decreases n - i,
    {
        if flen <= n - i && matches_at(v, i, from) {
            proof {
                assert(v@.skip(i as int).subrange(0, flen as int) =~= v@.subrange(
                    i as int,
                    i + flen,
                ));
            }
            let ghost out0 = out@;
            let mut k: usize = 0;
            while k < to.len()
                invariant
                    0 <= k <= to@.len(),
                    out@ == out0 + to@.subrange(0, k as int),
                decreases to@.len() - k,
            {
                out.push(to[k]);
                proof {
                    assert(out@ =~= out0 + to@.subrange(0, k + 1));
                }
                k = k + 1;
            }
            proof {
                assert(to@.subrange(0, to@.len() as int) =~= to@);
                assert(v@.skip(i as int).skip(flen as int) =~= v@.skip(i + flen));
            }
            i = i + flen;
        } else {
            proof {
                if flen <= n - i {
                    assert(v@.skip(i as int).subrange(0, flen as int) =~= v@.subrange(
                        i as int,
                        i + flen,
                    ));
                } else {
                    assert(v@.skip(i as int).len() < from@.len());
                }
                assert(v@.skip(i as int).drop_first() =~= v@.skip(i + 1));
                assert(seq![v@.skip(i as int)[0]] =~= seq![v@[i as int]]);
            }
            out.push(v[i]);
            i = i + 1;
        }
    }
    proof {
        assert(v@.skip(n as int) =~= Seq::<char>::empty());
    }
    out
}

/// The directory part of a path: everything before its last `/`, or the
/// empty prefix when the path is a bare file name.
pub open spec fn spec_parent_dir(path: Seq<char>) -> Seq<char> {
    if crate::last_index_of(path, '/') >= 0 {
        path.subrange(0, crate::last_index_of(path, '/'))
    } else {
        Seq::empty()
    }
}

/// The remainder of `path` under directory `prefix`: the whole path under
/// the empty prefix, or the part after the separator when `prefix` leads a
/// longer path. Paths are plain `/`-separated strings here.
pub open spec fn spec_strip_prefix(path: Seq<char>, prefix: Seq<char>) -> Option<Seq<char>> {
    if prefix.len() == 0 {
        Some(path)
    } else if path == prefix {
        Some(Seq::empty())
    } else if crate::text::starts_with(path, prefix) && path.len() > prefix.len() && path[
        prefix.len() as int
    ] == '/' {
        Some(path.skip(prefix.len() + 1 as int))
    } else {
        None
    }
}

/// Strips a directory prefix from a path.
fn strip_prefix_chars(path: &Vec<char>, prefix: &Vec<char>) -> (r: Option<Vec<char>>)
    ensures
        (match spec_strip_prefix(path@, prefix@) {
            Some(rel) => r matches Some(v) && v@ == rel,
            None => r is None,
        }),
{
    let mut rest: Vec<char> = Vec::new();
    if prefix.len() == 0 {
        let mut i: usize = 0;
        while i < path.len()
            invariant
                0 <= i <= path@.len(),
                rest@ == path@.subrange(0, i as int),
            decreases path@.len() - i,
        {
            rest.push(path[i]);
            proof {
                assert(rest@ =~= path@.subrange(0, i + 1));
            }
            i = i + 1;
        }
        proof {
            assert(rest@ =~= path@);
        }
        return Some(rest);
    }
    if path.len() < prefix.len() {
        return None;
    }
    if !matches_at(path, 0, prefix) {
        proof {
            assert(path@.subrange(0, prefix@.len() as int) != prefix@);
            if path@ == prefix@ {
                assert(path@.subrange(0, prefix@.len() as int) =~= prefix@);
            }
        }
        return None;
    }
    proof {
        assert(crate::text::starts_with(path@, prefix@));
    }
    if path.len() == prefix.len() {
        proof {
            assert(path@.subrange(0, prefix@.len() as int) =~= path@);
        }
        return Some(rest);
    }
    if path[prefix.len()] != '/' {
        proof {
            assert(path@ != prefix@);
        }
        return None;
    }
    let mut i: usize = prefix.len() + 1;
    let ghost base = prefix@.len() + 1;
    while i < path.len()
        invariant
            base <= i <= path@.len(),
            base == prefix@.len() + 1,
            rest@ == path@.subrange(base as int, i as int),
        decreases path@.len() - i,
    {
        rest.push(path[i]);
        proof {
            assert(rest@ =~= path@.subrange(base as int, i + 1));
        }
        i = i + 1;
    }
    proof {
        assert(path@ != prefix@);
        assert(rest@ =~= path@.skip(prefix@.len() + 1 as int));
    }
    Some(rest)
}

/// The relocation of saved-image references: when the image directory lies
/// under the output file's directory, every `](<image-dir>)` reference is
/// rewritten to the relative `](./<rest>)` form; otherwise the Markdown is
/// unchanged.
pub open spec fn spec_adjust_markdown(
    md: Seq<char>,
    image_path: Seq<char>,
    output_path: Option<Seq<char>>,
) -> Seq<char> {
    match output_path {
        Some(op) => {
            if op.len() > 0 {
                match spec_strip_prefix(image_path, spec_parent_dir(op)) {
                    Some(rel) => spec_replace(md, "]("@ + image_path + ")"@, "](./"@ + rel + ")"@),
                    None => md,
                }
            } else {
                md
            }
        },
        None => md,
    }
}

/// Rewrites saved-image references in Markdown to paths relative to the
/// eventual output file's directory, when the image directory lies under
/// it; paths are treated as plain `/`-separated strings.
pub fn adjust_image_path_in_markdown(
    markdown: &str,
    image_path: &str,
    output_path: &Option<String>,
) -> (r: String)
    ensures
        r@ == spec_adjust_markdown(markdown@, image_path@, crate::opt_path_view(*output_path)),
{
    let op = match output_path {
        Some(p) => p,
        None => {
            return String::from_str(markdown);
        },
    };
    if op.as_str().unicode_len() == 0 {
        return String::from_str(markdown);
    }
    let op_chars = crate::text::chars_of_str(op.as_str());
    proof {
        crate::lemma_last_index_bounds(op_chars@, '/');
    }
    let slash_end = crate::rfind_char(&op_chars, '/');
    let mut parent: Vec<char> = Vec::new();
    let parent_len: usize = if slash_end > 0 {
        slash_end - 1
    } else {
        0
    };
    let mut i: usize = 0;
    while i < parent_len
        invariant
            0 <= i <= parent_len <= op_chars@.len(),
            parent@ == op_chars@.subrange(0, i as int),
        decreases parent_len - i,
    {
        parent.push(op_chars[i]);
        proof {
            assert(parent@ =~= op_chars@.subrange(0, i + 1));
        }
        i = i + 1;
    }
    proof {
        assert(parent@ =~= spec_parent_dir(op_chars@));
    }
    let img_chars = crate::text::chars_of_str(image_path);
    let rel = match strip_prefix_chars(&img_chars, &parent) {
        Some(rel) => rel,
        None => {
            return String::from_str(markdown);
        },
    };
    let md_chars = crate::text::chars_of_str(markdown);
    let mut needle: Vec<char> = Vec::new();
    push_str_chars(&mut needle, "](");
    push_str_chars(&mut needle, image_path);
    push_str_chars(&mut needle, ")");
    let mut repl: Vec<char> = Vec::new();
    push_str_chars(&mut repl, "](./");
    let mut k: usize = 0;
    while k < rel.len()
        invariant
            0 <= k <= rel@.len(),
            repl@ == "](./"@ + rel@.subrange(0, k as int),
        decreases rel@.len() - k,
    {
        repl.push(rel[k]);
        proof {
            assert(repl@ =~= "](./"@ + rel@.subrange(0, k + 1));
        }
        k = k + 1;
    }
    push_str_chars(&mut repl, ")");
    proof {
        assert(rel@.subrange(0, rel@.len() as int) =~= rel@);
        assert(needle@ =~= "]("@ + image_path@ + ")"@);
        assert(repl@ =~= "](./"@ + rel@ + ")"@);
        reveal_strlit("](");
        assert(needle@.len() > 0);
    }
    let replaced = replace_all(&md_chars, &needle, &repl);
    crate::text::string_from_chars(&replaced)
}

pub open spec fn spec_image_result(bytes: Seq<u8>, mode: ImageProcessingMode, ts: int) -> Seq<
    char,
> {
    let name = spec_timestamp_name(ts);
    match mode {
        ImageProcessingMode::Base64 => spec_base64_image_md(
            name,
            resolved_mime(bytes),
            base64_of(bytes),
        ),
        ImageProcessingMode::SaveToFile => spec_file_image_md(
            name,
            name + "."@ + mime_extension(resolved_mime(bytes)),
        ),
    }
}

/// Law: two image conversions of one buffer in one placement mode, at any
/// two clock readings, are structurally identical except for the embedded
/// timestamp-derived name — one list of text segments yields both outputs,
/// with the respective name spliced between the segments.
pub proof fn lemma_image_same_but_name(
    bytes: Seq<u8>,
    mode: ImageProcessingMode,
    ts1: int,
    ts2: int,
)
    ensures
        crate::text::same_but_name(
            spec_image_result(bytes, mode, ts1),
            spec_image_result(bytes, mode, ts2),
            spec_timestamp_name(ts1),
            spec_timestamp_name(ts2),
        ),
{
    let n1 = spec_timestamp_name(ts1);
    let n2 = spec_timestamp_name(ts2);
    crate::text::lemma_sbn_const("!["@, n1, n2);
    crate::text::lemma_sbn_name(n1, n2);
    crate::text::lemma_sbn_concat("!["@, "!["@, n1, n2, n1, n2);
    let a = "!["@ + n1;
    let b = "!["@ + n2;
    match mode {
        ImageProcessingMode::Base64 => {
            let c1 = "](data:"@;
            crate::text::lemma_sbn_const(c1, n1, n2);
            crate::text::lemma_sbn_concat(a, b, c1, c1, n1, n2);
            let m = resolved_mime(bytes);
            crate::text::lemma_sbn_const(m, n1, n2);
            crate::text::lemma_sbn_concat(a + c1, b + c1, m, m, n1, n2);
            let c2 = ";base64,"@;
            crate::text::lemma_sbn_const(c2, n1, n2);
            crate::text::lemma_sbn_concat(a + c1 + m, b + c1 + m, c2, c2, n1, n2);
            let p = base64_of(bytes);
            crate::text::lemma_sbn_const(p, n1, n2);
            crate::text::lemma_sbn_concat(a + c1 + m + c2, b + c1 + m + c2, p, p, n1, n2);
            let c3 = ")"@;
            crate::text::lemma_sbn_const(c3, n1, n2);
            crate::text::lemma_sbn_concat(
                a + c1 + m + c2 + p,
                b + c1 + m + c2 + p,
                c3,
                c3,
                n1,
                n2,
            );
            assert(spec_image_result(bytes, mode, ts1) == a + c1 + m + c2 + p + c3);
            assert(spec_image_result(bytes, mode, ts2) == b + c1 + m + c2 + p + c3);
        },
        ImageProcessingMode::SaveToFile => {
            let c1 = "]("@;
            crate::text::lemma_sbn_const(c1, n1, n2);
            crate::text::lemma_sbn_concat(a, b, c1, c1, n1, n2);
            let dot_ext = "."@ + mime_extension(resolved_mime(bytes));
            crate::text::lemma_sbn_const(dot_ext, n1, n2);
            crate::text::lemma_sbn_concat(n1, n2, dot_ext, dot_ext, n1, n2);
            let f1 = n1 + dot_ext;
            let f2 = n2 + dot_ext;
            crate::text::lemma_sbn_concat(a + c1, b + c1, f1, f2, n1, n2);
            let c2 = ")"@;
            crate::text::lemma_sbn_const(c2, n1, n2);
            crate::text::lemma_sbn_concat(a + c1 + f1, b + c1 + f2, c2, c2, n1, n2);
            assert(f1 == n1 + "."@ + mime_extension(resolved_mime(bytes)));
            assert(f2 == n2 + "."@ + mime_extension(resolved_mime(bytes)));
            assert(spec_image_result(bytes, mode, ts1) == a + c1 + f1 + c2);
            assert(spec_image_result(bytes, mode, ts2) == b + c1 + f2 + c2);
        },
    }
}

/// Converts an image buffer to Markdown in the requested placement mode,
/// naming it from the clock. Empty input is rejected; in saved-file mode
/// the caller writes the payload to the referenced filename.
pub fn run_with_mode(file_stream: &Vec<u8>, mode: ImageProcessingMode) -> (r: Result<
    String,
    ConvertError,
>)
    ensures
        r is Err <==> file_stream@.len() == 0,
        r matches Err(e) ==> e is UnsupportedFormat,
        r matches Ok(md) ==> exists|ts: int| md@ == spec_image_result(file_stream@, mode, ts),
{
    if file_stream.len() == 0 {
        return Err(ConvertError::UnsupportedFormat(String::from_str("empty image stream")));
    }
    let ts = now_timestamp();
    let name = timestamp_name(ts);
    match mode {
        ImageProcessingMode::Base64 => {
            let md = image_markdown_base64(file_stream, name.as_str());
            proof {
                assert(md@ == spec_image_result(file_stream@, ImageProcessingMode::Base64, ts as int));
            }
            Ok(md)
        },
        ImageProcessingMode::SaveToFile => {
            let (_, md) = saved_image_reference(file_stream, name.as_str());
            proof {
                assert(md@ == spec_image_result(
                    file_stream@,
                    ImageProcessingMode::SaveToFile,
                    ts as int,
                ));
            }
            Ok(md)
        },
    }
}

/// Converts an image buffer to inline base64 Markdown, naming it from the
/// clock.
pub fn run(file_stream: &Vec<u8>) -> (r: Result<String, ConvertError>)
    ensures
        r is Err <==> file_stream@.len() == 0,
        r matches Err(e) ==> e is UnsupportedFormat,
        r matches Ok(md) ==> exists|ts: int|
            md@ == spec_image_result(file_stream@, ImageProcessingMode::Base64, ts),
{
    run_with_mode(file_stream, ImageProcessingMode::Base64)
}

} // verus!
