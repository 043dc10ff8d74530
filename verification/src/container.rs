//! The container reader: opens a ZIP-backed document held in memory,
//! enumerates its entries, and extracts media payloads keyed by archive
//! path, in archive enumeration order.

use vstd::prelude::*;
use crate::errors::ConvertError;
use crate::text::{chars_of_str, starts_with};

verus! {

#[verifier::external_type_specification]
#[verifier::external_body]
#[verifier::reject_recursive_types(T)]
pub struct ExCursor<T>(std::io::Cursor<T>);

#[verifier::external_type_specification]
#[verifier::external_body]
#[verifier::reject_recursive_types(R)]
pub struct ExZipArchive<R>(zip::ZipArchive<R>);

/// One archive entry as the model sees it: its name, and its decompressed
/// payload when the payload can be read (`None` when extraction fails).
pub ghost struct SpecZipEntry {
    pub name: Seq<char>,
    pub data: Option<Seq<u8>>,
}

/// What parsing a byte buffer as a ZIP archive yields: `None` when the
/// bytes are not a valid archive, otherwise the entry table in archive
/// enumeration order, with `None` for entries that cannot be opened. The
/// result depends on the bytes alone.
pub uninterp spec fn zip_parse(bytes: Seq<u8>) -> Option<Seq<Option<SpecZipEntry>>>;

/// The entry table an open archive holds.
pub uninterp spec fn zip_entries(a: zip::ZipArchive<std::io::Cursor<Vec<u8>>>) -> Seq<
    Option<SpecZipEntry>,
>;

/// Relies on `zip::ZipArchive::new`: parses the central directory of an
/// in-memory buffer; success and the entry table depend on the bytes alone.
#[verifier::external_body]
fn zip_open(bytes: Vec<u8>) -> (r: Result<zip::ZipArchive<std::io::Cursor<Vec<u8>>>, String>)
    ensures
        r is Ok <==> zip_parse(bytes@) is Some,
        r matches Ok(a) ==> zip_entries(a) == zip_parse(bytes@).unwrap(),
{
    match zip::ZipArchive::new(std::io::Cursor::new(bytes)) {
        Ok(a) => Ok(a),
        Err(e) => Err(e.to_string()),
    }
}

/// Relies on `zip::ZipArchive::len`: the number of entries in the archive.
#[verifier::external_body]
fn zip_len(a: &zip::ZipArchive<std::io::Cursor<Vec<u8>>>) -> (r: usize)
    ensures
        r == zip_entries(*a).len(),
{
    a.len()
}

/// Relies on `zip::ZipArchive::by_index` and `ZipFile::name`: opens one
/// entry and reports its declared name; the entry table is unchanged.
#[verifier::external_body]
fn zip_entry_name(a: &mut zip::ZipArchive<std::io::Cursor<Vec<u8>>>, i: usize) -> (r: Result<
    String,
    String,
>)
    requires
        i < zip_entries(*old(a)).len(),
    ensures
        zip_entries(*final(a)) == zip_entries(*old(a)),
        r is Ok <==> zip_entries(*old(a))[i as int] is Some,
        r matches Ok(n) ==> n@ == zip_entries(*old(a))[i as int].unwrap().name,
{
    match a.by_index(i) {
        Ok(f) => Ok(f.name().to_string()),
        Err(e) => Err(e.to_string()),
    }
}

/// Relies on `zip::ZipArchive::by_index` and `Read::read_to_end`: opens one
/// entry and decompresses its payload; the entry table is unchanged.
#[verifier::external_body]
fn zip_entry_data(a: &mut zip::ZipArchive<std::io::Cursor<Vec<u8>>>, i: usize) -> (r: Result<
    Vec<u8>,
    String,
>)
    requires
        i < zip_entries(*old(a)).len(),
    ensures
        zip_entries(*final(a)) == zip_entries(*old(a)),
        r is Ok <==> (zip_entries(*old(a))[i as int] matches Some(e) && e.data is Some),
        r matches Ok(d) ==> d@ == zip_entries(*old(a))[i as int].unwrap().data.unwrap(),
{
    let mut f = match a.by_index(i) {
        Ok(f) => f,
        Err(e) => {
            return Err(e.to_string());
        },
    };
    let mut data = Vec::new();
    match std::io::Read::read_to_end(&mut f, &mut data) {
        Ok(_) => Ok(data),
        Err(e) => Err(e.to_string()),
    }
}

/// An archive opened for one conversion call.
pub struct Container {
    archive: zip::ZipArchive<std::io::Cursor<Vec<u8>>>,
}

impl Container {
    /// The entry table this container holds.
    pub closed spec fn entries(&self) -> Seq<Option<SpecZipEntry>> {
        zip_entries(self.archive)
    }

    /// Opens a byte buffer as an archive; malformed bytes are a container
    /// error.
    pub fn open(bytes: Vec<u8>) -> (r: Result<Container, ConvertError>)
        ensures
            r is Ok <==> zip_parse(bytes@) is Some,
            r matches Ok(c) ==> c.entries() == zip_parse(bytes@).unwrap(),
            r matches Err(e) ==> e is Container,
    {
        match zip_open(bytes) {
            Ok(a) => Ok(Container { archive: a }),
            Err(m) => Err(ConvertError::Container(m)),
        }
    }

    /// The number of entries.
    pub fn len(&self) -> (r: usize)
        ensures
            r == self.entries().len(),
    {
        zip_len(&self.archive)
    }

    /// The declared name of one entry.
    pub fn entry_name(&mut self, i: usize) -> (r: Result<String, ConvertError>)
        requires
            i < old(self).entries().len(),
        ensures
            final(self).entries() == old(self).entries(),
            r is Ok <==> old(self).entries()[i as int] is Some,
            r matches Ok(n) ==> n@ == old(self).entries()[i as int].unwrap().name,
            r matches Err(e) ==> e is Container,
    {
        match zip_entry_name(&mut self.archive, i) {
            Ok(n) => Ok(n),
            Err(m) => Err(ConvertError::Container(m)),
        }
    }

    /// The decompressed payload of one entry.
    pub fn entry_data(&mut self, i: usize) -> (r: Result<Vec<u8>, ConvertError>)
        requires
            i < old(self).entries().len(),
        ensures
            final(self).entries() == old(self).entries(),
            r is Ok <==> (old(self).entries()[i as int] matches Some(e) && e.data is Some),
            r matches Ok(d) ==> d@ == old(self).entries()[i as int].unwrap().data.unwrap(),
            r matches Err(e) ==> e is Container,
    {
        match zip_entry_data(&mut self.archive, i) {
            Ok(d) => Ok(d),
            Err(m) => Err(ConvertError::Container(m)),
        }
    }
}

/// Whether every entry of the table can be opened, and every entry under
/// `prefix` also extracted — the condition for building a media table.
pub open spec fn media_ok(entries: Seq<Option<SpecZipEntry>>, prefix: Seq<char>) -> bool {
    forall|i: int|
        0 <= i < entries.len() ==> ((#[trigger] entries[i]) matches Some(e) && (starts_with(
            e.name,
            prefix,
        ) ==> e.data is Some))
}

/// The media table: every entry whose name begins with `prefix`, with its
/// payload, in archive enumeration order.
pub open spec fn spec_media(entries: Seq<Option<SpecZipEntry>>, prefix: Seq<char>) -> Seq<
    (Seq<char>, Seq<u8>),
>
    decreases entries.len(),
{
    if entries.len() == 0 {
        Seq::empty()
    } else {
        let rest = spec_media(entries.drop_last(), prefix);
        match entries.last() {
            Some(e) => {
                if starts_with(e.name, prefix) {
                    rest.push((e.name, e.data.unwrap_or(Seq::empty())))
                } else {
                    rest
                }
            },
            None => rest,
        }
    }
}

/// The view of a built media table.
pub open spec fn media_view(m: Seq<(String, Vec<u8>)>) -> Seq<(Seq<char>, Seq<u8>)> {
    m.map_values(|p: (String, Vec<u8>)| (p.0@, p.1@))
}

/// Builds the media table of a container: scans every entry and extracts
/// those under the given archive-path prefix, in enumeration order. Fails
/// with a container error when any entry cannot be opened, or a matching
/// one cannot be extracted.
pub fn collect_media(c: &mut Container, prefix: &str) -> (r: Result<
    Vec<(String, Vec<u8>)>,
    ConvertError,
>)
    ensures
        final(c).entries() == old(c).entries(),
        r is Ok <==> media_ok(old(c).entries(), prefix@),
        r matches Ok(m) ==> media_view(m@) == spec_media(old(c).entries(), prefix@),
        r matches Err(e) ==> e is Container,
{
    let n = c.len();
    let mut out: Vec<(String, Vec<u8>)> = Vec::new();
    let mut i: usize = 0;
    proof {
        assert(old(c).entries().subrange(0, 0) =~= Seq::<Option<SpecZipEntry>>::empty());
    }
    while i < n
        invariant
            0 <= i <= n == c.entries().len(),
            c.entries() == old(c).entries(),
            media_ok(c.entries().subrange(0, i as int), prefix@),
            media_view(out@) == spec_media(c.entries().subrange(0, i as int), prefix@),
        decreases n - i,
    {
        let name = match c.entry_name(i) {
            Ok(n) => n,
            Err(e) => {
                proof {
                    assert(!media_ok(c.entries(), prefix@));
                }
                return Err(e);
            },
        };
        let name_chars = chars_of_str(name.as_str());
        proof {
            assert(name_chars@ == c.entries()[i as int].unwrap().name);
        }
        if crate::text::chars_start_with(&name_chars, prefix) {
            let data = match c.entry_data(i) {
                Ok(d) => d,
                Err(e) => {
                    proof {
                        assert(!media_ok(c.entries(), prefix@));
                    }
                    return Err(e);
                },
            };
            out.push((name, data));
        }
        proof {
            let pre = c.entries().subrange(0, i as int);
            let cur = c.entries().subrange(0, i + 1);
            assert(cur.drop_last() =~= pre);
            assert(cur.last() == c.entries()[i as int]);
            assert(media_view(out@) =~= spec_media(cur, prefix@));
            assert forall|k: int| 0 <= k < cur.len() implies (#[trigger] cur[k]) matches Some(e)
                && (starts_with(e.name, prefix@) ==> e.data is Some) by {
                if k < i {
                    assert(pre[k] == cur[k]);
                }
            }
        }
        i = i + 1;
    }
    proof {
        assert(c.entries().subrange(0, n as int) =~= c.entries());
    }
    Ok(out)
}

} // verus!
