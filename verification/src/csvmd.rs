//! The tabular path: CSV bytes become a Markdown pipe-table, and
//! spreadsheet row grids become per-sheet CSV strings and a combined
//! Markdown document with sheet-name headers.

use vstd::prelude::*;
use crate::errors::ConvertError;
use crate::text::{chars_of_str, push_str_chars, spec_trim, string_from_chars, trim_chars};

verus! {

#[verifier::external_type_specification]
#[verifier::external_body]
#[verifier::reject_recursive_types(R)]
pub struct ExCsvReader<R>(csv::Reader<R>);

/// The header row a CSV byte buffer yields under headers-on reading, or
/// `None` when the header cannot be read; depends on the bytes alone.
pub uninterp spec fn csv_header_of(bytes: Seq<u8>) -> Option<Seq<Seq<char>>>;

/// The data records of a CSV byte buffer, in order: each is its cells, or
/// `None` for a record that fails to parse; depends on the bytes alone.
pub uninterp spec fn csv_records_of(bytes: Seq<u8>) -> Seq<Option<Seq<Seq<char>>>>;

/// The header a reader will report.
pub uninterp spec fn csv_reader_header(r: csv::Reader<std::io::Cursor<Vec<u8>>>) -> Option<
    Seq<Seq<char>>,
>;

/// The records a reader has yet to yield.
pub uninterp spec fn csv_reader_pending(r: csv::Reader<std::io::Cursor<Vec<u8>>>) -> Seq<
    Option<Seq<Seq<char>>>,
>;

/// Relies on `csv::ReaderBuilder::from_reader` with headers enabled over an
/// in-memory buffer.
#[verifier::external_body]
fn csv_open(bytes: Vec<u8>) -> (r: csv::Reader<std::io::Cursor<Vec<u8>>>)
    ensures
        csv_reader_header(r) == csv_header_of(bytes@),
        csv_reader_pending(r) == csv_records_of(bytes@),
{
    csv::ReaderBuilder::new().has_headers(true).from_reader(std::io::Cursor::new(bytes))
}

/// Relies on `csv::Reader::headers`: the first record, without consuming
/// any data record.
#[verifier::external_body]
fn csv_headers(r: &mut csv::Reader<std::io::Cursor<Vec<u8>>>) -> (h: Option<Vec<String>>)
    ensures
        csv_reader_header(*final(r)) == csv_reader_header(*old(r)),
        csv_reader_pending(*final(r)) == csv_reader_pending(*old(r)),
        h is Some <==> csv_reader_header(*old(r)) is Some,
        h matches Some(v) ==> Some(v@.map_values(|c: String| c@)) == csv_reader_header(*old(r)),
{
    match r.headers() {
        Ok(rec) => Some(rec.iter().map(|f| f.to_string()).collect()),
        Err(_) => None,
    }
}

/// Relies on `csv::Reader::read_record`: yields the next data record,
/// `Ok(None)` at end of input, and an error for an unparsable record.
#[verifier::external_body]
fn csv_next(r: &mut csv::Reader<std::io::Cursor<Vec<u8>>>) -> (rec: Result<
    Option<Vec<String>>,
    String,
>)
    ensures
        csv_reader_header(*final(r)) == csv_reader_header(*old(r)),
        csv_reader_pending(*old(r)).len() == 0 ==> csv_reader_pending(*final(r))
            == csv_reader_pending(*old(r)) && (rec matches Ok(o) && o is None),
        csv_reader_pending(*old(r)).len() > 0 ==> csv_reader_pending(*final(r))
            == csv_reader_pending(*old(r)).drop_first() && (match csv_reader_pending(*old(r))[0] {
            Some(cells) => rec matches Ok(o) && (o matches Some(v) && v@.map_values(
                |c: String| c@,
            ) == cells),
            None => rec is Err,
        }),
{
    let mut record = csv::StringRecord::new();
    match r.read_record(&mut record) {
        Ok(true) => Ok(Some(record.iter().map(|f| f.to_string()).collect())),
        Ok(false) => Ok(None),
        Err(e) => Err(e.to_string()),
    }
}

/// Trimmed cells joined with ` | `.
pub open spec fn join_cells(cells: Seq<Seq<char>>) -> Seq<char>
    decreases cells.len(),
{
    if cells.len() == 0 {
        Seq::empty()
    } else if cells.len() == 1 {
        spec_trim(cells[0])
    } else {
        join_cells(cells.drop_last()) + " | "@ + spec_trim(cells.last())
    }
}

/// One rendered CSV table line.
pub open spec fn csv_row_md(cells: Seq<Seq<char>>) -> Seq<char> {
    "| "@ + join_cells(cells) + " |\n"@
}

/// The separator cells `---`, joined with ` | `.
pub open spec fn sep_join(n: nat) -> Seq<char>
    decreases n,
{
    if n == 0 {
        Seq::empty()
    } else if n == 1 {
        "---"@
    } else {
        sep_join((n - 1) as nat) + " | ---"@
    }
}

/// The header block: the header row and its separator row, or nothing when
/// the header cannot be read.
pub open spec fn csv_header_md(h: Option<Seq<Seq<char>>>) -> Seq<char> {
    match h {
        Some(cells) => csv_row_md(cells) + "| "@ + sep_join(cells.len()) + " |\n"@,
        None => Seq::empty(),
    }
}

/// The data rows, accumulated in order; `None` when a record fails to
/// parse.
pub open spec fn csv_rows_md(records: Seq<Option<Seq<Seq<char>>>>, i: int, acc: Seq<char>) -> Option<
    Seq<char>,
>
    decreases records.len() - i,
    when 0 <= i <= records.len()
{
    if i >= records.len() {
        Some(acc)
    } else {
        match records[i] {
            Some(cells) => csv_rows_md(records, i + 1, acc + csv_row_md(cells)),
            None => None,
        }
    }
}

/// The full rendering of a CSV byte buffer: the header block, then every
/// record as a table line.
pub open spec fn spec_csv_md(bytes: Seq<u8>) -> Option<Seq<char>> {
    csv_rows_md(csv_records_of(bytes), 0, csv_header_md(csv_header_of(bytes)))
}

/// Renders one record as a table line into `out`.
fn push_csv_row(out: &mut Vec<char>, cells: &Vec<String>)
    ensures
        final(out)@ == old(out)@ + csv_row_md(cells@.map_values(|c: String| c@)),
{
    let ghost cv = cells@.map_values(|c: String| c@);
    push_str_chars(out, "| ");
    let mut j: usize = 0;
    while j < cells.len()
        invariant
            0 <= j <= cells@.len(),
            cv == cells@.map_values(|c: String| c@),
            out@ == old(out)@ + "| "@ + join_cells(cv.subrange(0, j as int)),
        decreases cells@.len() - j,
    {
        if j > 0 {
            push_str_chars(out, " | ");
        }
        let cell_chars = chars_of_str(cells[j].as_str());
        let trimmed = trim_chars(&cell_chars);
        let mut k: usize = 0;
        while k < trimmed.len()
            invariant
                0 <= k <= trimmed@.len(),
                out@ == old(out)@ + "| "@ + join_cells(cv.subrange(0, j as int)) + (if j > 0 {
                    " | "@
                } else {
                    Seq::<char>::empty()
                }) + trimmed@.subrange(0, k as int),
            decreases trimmed@.len() - k,
        {
            out.push(trimmed[k]);
            proof {
                assert(out@ =~= old(out)@ + "| "@ + join_cells(cv.subrange(0, j as int)) + (
                if j > 0 {
                    " | "@
                } else {
                    Seq::<char>::empty()
                }) + trimmed@.subrange(0, k + 1));
            }
            k = k + 1;
        }
        proof {
            assert(trimmed@.subrange(0, trimmed@.len() as int) =~= trimmed@);
            let pre = cv.subrange(0, j as int);
            let cur = cv.subrange(0, j + 1);
            assert(cur.drop_last() =~= pre);
            assert(cur.last() == cv[j as int]);
            assert(cur[0] == cv[0]);
            assert(out@ =~= old(out)@ + "| "@ + join_cells(cur));
        }
        j = j + 1;
    }
    push_str_chars(out, " |\n");
    proof {
        assert(cv.subrange(0, cv.len() as int) =~= cv);
        assert(final(out)@ =~= old(out)@ + csv_row_md(cv));
    }
}

/// Converts CSV bytes to a Markdown table.
///
/// The first record becomes the header with a separator row; every later
/// record becomes a table line with trimmed cells. An unparsable record,
/// or input that renders to nothing at all, is a document parse error.
pub fn run(bytes: &[u8]) -> (r: Result<String, ConvertError>)
    ensures
        (match spec_csv_md(bytes@) {
            Some(md) => if md.len() > 0 {
                r matches Ok(s) && s@ == md
            } else {
                r matches Err(e) && e is DocumentParse
            },
            None => r matches Err(e) && e is DocumentParse,
        }),
{
    let owned = vstd::slice::slice_to_vec(bytes);
    let ghost b = bytes@;
    let mut rdr = csv_open(owned);
    let mut out: Vec<char> = Vec::new();
    match csv_headers(&mut rdr) {
        Some(h) => {
            push_csv_row(&mut out, &h);
            push_str_chars(&mut out, "| ");
            let ghost hv = h@.map_values(|c: String| c@);
            let mut j: usize = 0;
            while j < h.len()
                invariant
                    0 <= j <= h@.len(),
                    hv == h@.map_values(|c: String| c@),
                    out@ == csv_row_md(hv) + "| "@ + sep_join(j as nat),
                decreases h@.len() - j,
            {
                if j > 0 {
                    push_str_chars(&mut out, " | ---");
                } else {
                    push_str_chars(&mut out, "---");
                }
                j = j + 1;
            }
            push_str_chars(&mut out, " |\n");
            proof {
                assert(out@ =~= csv_header_md(csv_header_of(b)));
            }
        },
        None => {
            proof {
                assert(out@ =~= csv_header_md(csv_header_of(b)));
            }
        },
    }
    let ghost records = csv_records_of(b);
    let mut done = false;
    proof {
        assert(records.subrange(0, 0) =~= Seq::<Option<Seq<Seq<char>>>>::empty());
    }
    loop
        invariant_except_break
            !done,
            exists|k: int|
                0 <= k <= records.len() && csv_reader_pending(rdr) == records.subrange(
                    k,
                    records.len() as int,
                ) && csv_rows_md(records, k, out@) == csv_rows_md(
                    records,
                    0,
                    csv_header_md(csv_header_of(b)),
                ),
        invariant
            b == bytes@,
            csv_reader_header(rdr) == csv_header_of(b),
            records == csv_records_of(b),
            done ==> csv_rows_md(records, 0, csv_header_md(csv_header_of(b))) == Some(out@),
        ensures
            done,
        decreases csv_reader_pending(rdr).len() + 1,
    {
        let ghost k = choose|k: int|
            0 <= k <= records.len() && csv_reader_pending(rdr) == records.subrange(
                k,
                records.len() as int,
            ) && csv_rows_md(records, k, out@) == csv_rows_md(
                records,
                0,
                csv_header_md(csv_header_of(b)),
            );
        match csv_next(&mut rdr) {
            Ok(Some(cells)) => {
                proof {
                    assert(csv_reader_pending(rdr) =~= records.subrange(
                        k + 1,
                        records.len() as int,
                    ));
                }
                push_csv_row(&mut out, &cells);
                proof {
                    assert(records[k] == Some(cells@.map_values(|c: String| c@)));
                    assert(csv_rows_md(records, k + 1, out@) == csv_rows_md(
                        records,
                        0,
                        csv_header_md(csv_header_of(b)),
                    ));
                }
            },
            Ok(None) => {
                proof {
                    assert(k == records.len());
                }
                done = true;
                break ;
            },
            Err(_) => {
                proof {
                    assert(records[k] is None);
                    assert(csv_rows_md(records, k, out@) is None);
                }
                return Err(
                    ConvertError::DocumentParse(String::from_str("malformed record")),
                );
            },
        }
    }
    if out.len() == 0 {
        return Err(
            ConvertError::DocumentParse(String::from_str("empty or unreadable table data")),
        );
    }
    Ok(string_from_chars(&out))
}

} // verus!
