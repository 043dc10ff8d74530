//! The spreadsheet adapter: per-sheet row grids become CSV strings, and
//! the per-sheet CSV strings become one combined Markdown document with
//! sheet-name headers.
//!
//! Decoding the spreadsheet container into row grids is the collaborating
//! cell-grid reader's job; this module consumes plain rows of cell strings.

use vstd::prelude::*;
use crate::csvmd::spec_csv_md;
use crate::errors::ConvertError;
use crate::text::{push_str_chars, string_from_chars};

verus! {

/// Configuration for spreadsheet-to-CSV conversion.
pub struct Xlsx2CsvConfig {
    /// Delimiter for the CSV output.
    pub delimiter: u8,
    /// Whether the first row sizes the column count for every row.
    pub use_header: bool,
}

impl Default for Xlsx2CsvConfig {
    /// The default configuration: comma-delimited, no header sizing.
    fn default() -> (r: Xlsx2CsvConfig)
        ensures
            r.delimiter == 44u8,
            r.use_header == false,
    {
        Xlsx2CsvConfig { delimiter: 44u8, use_header: false }
    }
}

/// The per-sheet result of a spreadsheet conversion: sheet names in order,
/// and the CSV text of each sheet at the same index.
pub struct Xlsx2CsvResult {
    pub sheet_names: Vec<String>,
    pub csv_data: Vec<String>,
}

/// The index of the first name equal to `name`, if any.
pub open spec fn spec_position(names: Seq<Seq<char>>, name: Seq<char>) -> Option<int>
    decreases names.len(),
{
    if names.len() == 0 {
        None
    } else if names[0] == name {
        Some(0)
    } else {
        match spec_position(names.drop_first(), name) {
            Some(i) => Some(i + 1),
            None => None,
        }
    }
}

proof fn lemma_position_at(names: Seq<Seq<char>>, name: Seq<char>, k: int)
    requires
        0 <= k < names.len(),
        names[k] == name,
        forall|j: int| 0 <= j < k ==> #[trigger] names[j] != name,
    ensures
        spec_position(names, name) == Some(k),
    decreases k,
{
    if k > 0 {
        lemma_position_at(names.drop_first(), name, k - 1);
    }
}

proof fn lemma_position_none(names: Seq<Seq<char>>, name: Seq<char>)
    requires
        forall|j: int| 0 <= j < names.len() ==> #[trigger] names[j] != name,
    ensures
        spec_position(names, name) is None,
    decreases names.len(),
{
    if names.len() > 0 {
        lemma_position_none(names.drop_first(), name);
    }
}

impl Xlsx2CsvResult {
    /// Whether names and data pair off one to one.
    pub open spec fn wf(&self) -> bool {
        self.sheet_names@.len() == self.csv_data@.len()
    }

    /// The CSV text of the first sheet carrying `name`, if any.
    pub fn get_by_name(&self, name: &str) -> (r: Option<&String>)
        requires
            self.wf(),
        ensures
            (match spec_position(
                self.sheet_names@.map_values(|s: String| s@),
                name@,
            ) {
                Some(i) => r matches Some(s) && *s == self.csv_data@[i],
                None => r is None,
            }),
    {
        let ghost nv = self.sheet_names@.map_values(|s: String| s@);
        let mut i: usize = 0;
        while i < self.sheet_names.len()
            invariant
                0 <= i <= self.sheet_names@.len(),
                self.wf(),
                nv == self.sheet_names@.map_values(|s: String| s@),
                forall|j: int| 0 <= j < i ==> #[trigger] nv[j] != name@,
            decreases self.sheet_names@.len() - i,
        {
            if crate::text::str_eq(self.sheet_names[i].as_str(), name) {
                proof {
                    lemma_position_at(nv, name@, i as int);
                }
                return Some(&self.csv_data[i]);
            }
            i = i + 1;
        }
        proof {
            lemma_position_none(nv, name@);
        }
        None
    }

    /// The first sheet's CSV text, if any sheet exists.
    pub fn first(&self) -> (r: Option<&String>)
        ensures
            self.csv_data@.len() > 0 ==> (r matches Some(s) && *s == self.csv_data@[0]),
            self.csv_data@.len() == 0 ==> r is None,
    {
        if self.csv_data.len() > 0 {
            Some(&self.csv_data[0])
        } else {
            None
        }
    }
}

/// The CSV encoding of one record under a delimiter, newline-terminated;
/// the result depends on the cells and the delimiter alone.
pub uninterp spec fn csv_line_of(cells: Seq<Seq<char>>, delim: u8) -> Seq<char>;

/// Whether encoding one record under a delimiter succeeds; like the line
/// itself, this depends on the cells and the delimiter alone (the only
/// failure is output that is not UTF-8, from a non-UTF-8 delimiter byte).
pub uninterp spec fn csv_encodes_ok(cells: Seq<Seq<char>>, delim: u8) -> bool;

/// Relies on `csv::WriterBuilder` and `csv::Writer::write_record`: one
/// record encoded with the given delimiter into an in-memory buffer.
/// Writing to an in-memory buffer cannot fail, so with the comma delimiter
/// — all added bytes ASCII — the encoding always succeeds.
#[verifier::external_body]
fn csv_encode_record(cells: &Vec<String>, delim: u8) -> (r: Result<String, String>)
    ensures
        r is Ok <==> csv_encodes_ok(cells@.map_values(|c: String| c@), delim),
        delim == 44u8 ==> r is Ok,
        r matches Ok(s) ==> s@ == csv_line_of(cells@.map_values(|c: String| c@), delim),
{
    let mut w = csv::WriterBuilder::new().delimiter(delim).from_writer(Vec::new());
    if let Err(e) = w.write_record(cells) {
        return Err(e.to_string());
    }
    match w.into_inner() {
        Ok(buf) => match String::from_utf8(buf) {
            Ok(s) => Ok(s),
            Err(e) => Err(e.to_string()),
        },
        Err(e) => Err(e.to_string()),
    }
}

/// The index of the first empty cell of a row, or the row's length.
pub open spec fn first_empty(row: Seq<Seq<char>>) -> int
    decreases row.len(),
{
    if row.len() == 0 {
        0
    } else if row[0].len() == 0 {
        0
    } else {
        1 + first_empty(row.drop_first())
    }
}

proof fn lemma_first_empty_at(row: Seq<Seq<char>>, k: int)
    requires
        0 <= k <= row.len(),
        forall|j: int| 0 <= j < k ==> (#[trigger] row[j]).len() > 0,
        k < row.len() ==> row[k].len() == 0,
    ensures
        first_empty(row) == k,
    decreases k,
{
    if k > 0 {
        lemma_first_empty_at(row.drop_first(), k - 1);
    }
}

/// The view of a row grid.
pub open spec fn grid_view(rows: Seq<Vec<String>>) -> Seq<Seq<Seq<char>>> {
    rows.map_values(|r: Vec<String>| r@.map_values(|c: String| c@))
}

/// A row cut to the canonical column count.
pub open spec fn row_take(row: Seq<Seq<char>>, n: int) -> Seq<Seq<char>> {
    if n <= row.len() {
        row.take(n)
    } else {
        row
    }
}

/// The CSV text of a sheet: every row encoded in order; under header
/// sizing, all rows are cut to the first row's column count, which is the
/// index of its first empty cell.
pub open spec fn spec_sheet_csv_lines(
    rows: Seq<Seq<Seq<char>>>,
    delim: u8,
    cut: Option<int>,
) -> Seq<char>
    decreases rows.len(),
{
    if rows.len() == 0 {
        Seq::empty()
    } else {
        spec_sheet_csv_lines(rows.drop_last(), delim, cut) + csv_line_of(
            match cut {
                Some(n) => row_take(rows.last(), n),
                None => rows.last(),
            },
            delim,
        )
    }
}

/// The whole sheet's CSV text.
pub open spec fn spec_sheet_csv(rows: Seq<Seq<Seq<char>>>, delim: u8, use_header: bool) -> Seq<
    char,
> {
    if use_header {
        if rows.len() == 0 {
            Seq::empty()
        } else {
            spec_sheet_csv_lines(rows, delim, Some(first_empty(rows[0])))
        }
    } else {
        spec_sheet_csv_lines(rows, delim, None)
    }
}

/// A row under the optional column cut.
pub open spec fn apply_cut(row: Seq<Seq<char>>, cut: Option<int>) -> Seq<Seq<char>> {
    match cut {
        Some(n) => row_take(row, n),
        None => row,
    }
}

/// Whether every row of a sheet encodes under the cut.
pub open spec fn spec_sheet_encodes(rows: Seq<Seq<Seq<char>>>, delim: u8, cut: Option<int>) -> bool {
    forall|k: int|
        0 <= k < rows.len() ==> csv_encodes_ok(#[trigger] apply_cut(rows[k], cut), delim)
}

/// Whether a whole sheet's conversion succeeds.
pub open spec fn spec_sheet_csv_ok(rows: Seq<Seq<Seq<char>>>, delim: u8, use_header: bool) -> bool {
    if use_header {
        rows.len() == 0 || spec_sheet_encodes(rows, delim, Some(first_empty(rows[0])))
    } else {
        spec_sheet_encodes(rows, delim, None)
    }
}

/// Encodes one truncated row.
fn encode_row_cut(row: &Vec<String>, delim: u8, cut: usize) -> (r: Result<String, ConvertError>)
    ensures
        r is Ok <==> csv_encodes_ok(row_take(row@.map_values(|c: String| c@), cut as int), delim),
        r matches Ok(s) ==> s@ == csv_line_of(
            row_take(row@.map_values(|c: String| c@), cut as int),
            delim,
        ),
        r matches Err(e) ==> e is Io,
{
    let ghost rv = row@.map_values(|c: String| c@);
    let mut cols: Vec<String> = Vec::new();
    let n = if cut < row.len() {
        cut
    } else {
        row.len()
    };
    let mut i: usize = 0;
    while i < n
        invariant
            0 <= i <= n <= row@.len(),
            rv == row@.map_values(|c: String| c@),
            n == (if cut <= rv.len() {
                cut as int
            } else {
                rv.len() as int
            }),
            cols@.len() == i,
            forall|k: int| 0 <= k < i ==> (#[trigger] cols@[k])@ == rv[k],
        decreases n - i,
    {
        let cell = String::from_str(row[i].as_str());
        cols.push(cell);
        proof {
            assert(cols@[i as int]@ == rv[i as int]);
        }
        i = i + 1;
    }
    proof {
        let mapped = cols@.map_values(|c: String| c@);
        assert forall|k: int| 0 <= k < n implies mapped[k] == row_take(rv, cut as int)[k] by {
            assert(mapped[k] == cols@[k]@);
            assert(row_take(rv, cut as int)[k] == rv[k]);
        }
        assert(mapped =~= row_take(rv, cut as int));
    }
    match csv_encode_record(&cols, delim) {
        Ok(s) => Ok(s),
        Err(m) => Err(ConvertError::Io(m)),
    }
}

/// Converts one sheet's row grid to CSV text.
///
/// Without header sizing, every row is encoded as given. With it, the
/// first row's column count — up to its first empty cell — sizes every
/// row, and an empty sheet yields empty text.
pub fn worksheet_to_csv_string(rows: &Vec<Vec<String>>, config: &Xlsx2CsvConfig) -> (r: Result<
    String,
    ConvertError,
>)
    ensures
        r is Ok <==> spec_sheet_csv_ok(grid_view(rows@), config.delimiter, config.use_header),
        r matches Ok(s) ==> s@ == spec_sheet_csv(grid_view(rows@), config.delimiter, config.use_header),
        r matches Err(e) ==> e is Io,
{
    let ghost gv = grid_view(rows@);
    let mut out: Vec<char> = Vec::new();
    if config.use_header {
        if rows.len() == 0 {
            return Ok(string_from_chars(&out));
        }
        let header = &rows[0];
        let mut cut: usize = 0;
        while cut < header.len() && header[cut].as_str().unicode_len() > 0
            invariant
                0 <= cut <= header@.len(),
                rows@.len() > 0,
                gv == grid_view(rows@),
                header@ == rows@[0]@,
                forall|j: int| 0 <= j < cut ==> (#[trigger] gv[0][j]).len() > 0,
            decreases header@.len() - cut,
        {
            proof {
                assert(gv[0][cut as int] == header@[cut as int]@);
            }
            cut = cut + 1;
        }
        proof {
            if cut < header.len() {
                assert(gv[0][cut as int] == header@[cut as int]@);
            }
        }
        proof {
            lemma_first_empty_at(gv[0], cut as int);
        }
        let mut i: usize = 0;
        while i < rows.len()
            invariant
                0 <= i <= rows@.len(),
                gv == grid_view(rows@),
                rows@.len() > 0,
                cut as int == first_empty(gv[0]),
                config.use_header == true,
                forall|j: int|
                    0 <= j < i ==> csv_encodes_ok(
                        #[trigger] apply_cut(gv[j], Some(cut as int)),
                        config.delimiter,
                    ),
                out@ == spec_sheet_csv_lines(gv.subrange(0, i as int), config.delimiter, Some(cut as int)),
            decreases rows@.len() - i,
        {
            let line = match encode_row_cut(&rows[i], config.delimiter, cut) {
                Ok(s) => s,
                Err(e) => {
                    proof {
                        assert(gv[i as int] == rows@[i as int]@.map_values(|c: String| c@));
                        assert(!csv_encodes_ok(apply_cut(gv[i as int], Some(cut as int)), config.delimiter));
                        assert(!spec_sheet_csv_ok(gv, config.delimiter, config.use_header));
                    }
                    return Err(e);
                },
            };
            proof {
                assert(gv[i as int] == rows@[i as int]@.map_values(|c: String| c@));
                assert(csv_encodes_ok(apply_cut(gv[i as int], Some(cut as int)), config.delimiter));
            }
            push_str_chars(&mut out, line.as_str());
            proof {
                let pre = gv.subrange(0, i as int);
                let cur = gv.subrange(0, i + 1);
                assert(cur.drop_last() =~= pre);
                assert(cur.last() == gv[i as int]);
            }
            i = i + 1;
        }
        proof {
            assert(gv.subrange(0, gv.len() as int) =~= gv);
        }
        Ok(string_from_chars(&out))
    } else {
        let mut i: usize = 0;
        while i < rows.len()
            invariant
                0 <= i <= rows@.len(),
                gv == grid_view(rows@),
                config.use_header == false,
                forall|j: int|
                    0 <= j < i ==> csv_encodes_ok(#[trigger] apply_cut(gv[j], None), config.delimiter),
                out@ == spec_sheet_csv_lines(gv.subrange(0, i as int), config.delimiter, None),
            decreases rows@.len() - i,
        {
            let line = match csv_encode_record(&rows[i], config.delimiter) {
                Ok(s) => s,
                Err(m) => {
                    proof {
                        assert(gv[i as int] == rows@[i as int]@.map_values(|c: String| c@));
                        assert(!csv_encodes_ok(apply_cut(gv[i as int], None), config.delimiter));
                        assert(!spec_sheet_csv_ok(gv, config.delimiter, config.use_header));
                    }
                    return Err(ConvertError::Io(m));
                },
            };
            proof {
                assert(gv[i as int] == rows@[i as int]@.map_values(|c: String| c@));
                assert(csv_encodes_ok(apply_cut(gv[i as int], None), config.delimiter));
            }
            push_str_chars(&mut out, line.as_str());
            proof {
                let pre = gv.subrange(0, i as int);
                let cur = gv.subrange(0, i + 1);
                assert(cur.drop_last() =~= pre);
                assert(cur.last() == gv[i as int]);
            }
            i = i + 1;
        }
        proof {
            assert(gv.subrange(0, gv.len() as int) =~= gv);
        }
        Ok(string_from_chars(&out))
    }
}

/// Converts a spreadsheet's decoded sheets to per-sheet CSV text.
///
/// A spreadsheet with no sheets is rejected; otherwise each sheet's grid
/// is encoded under the given (or default) configuration, and the result
/// pairs sheet names with CSV text by index.
pub fn sheets_to_csv(
    names: Vec<String>,
    grids: Vec<Vec<Vec<String>>>,
    config: Option<Xlsx2CsvConfig>,
) -> (r: Result<Xlsx2CsvResult, ConvertError>)
    requires
        names@.len() == grids@.len(),
    ensures
        names@.len() == 0 ==> (r matches Err(e) && e is DocumentParse),
        r matches Ok(res) ==> res.wf() && res.sheet_names@ == names@ && ({
            let cfg_delim: u8 = (match config {
                Some(c) => c.delimiter,
                None => 44u8,
            });
            let cfg_hdr: bool = (match config {
                Some(c) => c.use_header,
                None => false,
            });
            forall|i: int|
                0 <= i < grids@.len() ==> (#[trigger] res.csv_data@[i])@ == spec_sheet_csv(
                    grid_view(grids@[i]@),
                    cfg_delim,
                    cfg_hdr,
                )
        }),
        r matches Err(e) ==> (e is DocumentParse || e is Io),
        r is Ok <==> (names@.len() > 0 && ({
            let cfg_delim: u8 = (match config {
                Some(c) => c.delimiter,
                None => 44u8,
            });
            let cfg_hdr: bool = (match config {
                Some(c) => c.use_header,
                None => false,
            });
            forall|i: int|
                0 <= i < grids@.len() ==> spec_sheet_csv_ok(
                    grid_view((#[trigger] grids@[i])@),
                    cfg_delim,
                    cfg_hdr,
                )
        })),
{
    let cfg = match config {
        Some(c) => c,
        None => Xlsx2CsvConfig { delimiter: 44u8, use_header: false },
    };
    if names.len() == 0 {
        return Err(ConvertError::DocumentParse(String::from_str("no sheets found")));
    }
    let mut csv_data: Vec<String> = Vec::new();
    let mut i: usize = 0;
    while i < grids.len()
        invariant
            0 <= i <= grids@.len(),
            names@.len() == grids@.len(),
            names@.len() > 0,
            csv_data@.len() == i,
            cfg.delimiter == (match config {
                Some(c) => c.delimiter,
                None => 44u8,
            }),
            cfg.use_header == (match config {
                Some(c) => c.use_header,
                None => false,
            }),
            forall|j: int|
                0 <= j < i ==> spec_sheet_csv_ok(
                    grid_view((#[trigger] grids@[j])@),
                    cfg.delimiter,
                    cfg.use_header,
                ),
            forall|j: int|
                0 <= j < i ==> (#[trigger] csv_data@[j])@ == spec_sheet_csv(
                    grid_view(grids@[j]@),
                    cfg.delimiter,
                    cfg.use_header,
                ),
        decreases grids@.len() - i,
    {
        let s = match worksheet_to_csv_string(&grids[i], &cfg) {
            Ok(s) => s,
            Err(e) => {
                proof {
                    assert(!spec_sheet_csv_ok(grid_view(grids@[i as int]@), cfg.delimiter, cfg.use_header));
                }
                return Err(e);
            },
        };
        csv_data.push(s);
        i = i + 1;
    }
    Ok(Xlsx2CsvResult { sheet_names: names, csv_data })
}

/// The combined Markdown of the per-sheet CSV texts: each sheet renders
/// under a `## Sheet:` header, separated by horizontal rules; `None` when
/// any sheet's CSV fails to render or renders empty.
pub open spec fn spec_sheets_md(
    names: Seq<Seq<char>>,
    csvs: Seq<Seq<u8>>,
    i: int,
    acc: Seq<char>,
) -> Option<Seq<char>>
    decreases names.len() - i,
    when 0 <= i <= names.len() && names.len() == csvs.len()
{
    if i >= names.len() {
        Some(acc)
    } else {
        match spec_csv_md(csvs[i]) {
            None => None,
            Some(m) => {
                if m.len() == 0 {
                    None
                } else {
                    let sep = if acc.len() > 0 {
                        "\n\n---\n\n"@
                    } else {
                        Seq::<char>::empty()
                    };
                    spec_sheets_md(
                        names,
                        csvs,
                        i + 1,
                        acc + sep + "## Sheet: "@ + names[i] + "\n\n"@ + m,
                    )
                }
            },
        }
    }
}

/// Renders per-sheet CSV texts as one combined Markdown document, with a
/// `## Sheet:` header per sheet and horizontal rules between sheets. A
/// sheet whose CSV fails to render, or an empty result, is a document
/// parse error.
pub fn sheets_markdown(names: &Vec<String>, csvs: &Vec<String>) -> (r: Result<
    String,
    ConvertError,
>)
    requires
        names@.len() == csvs@.len(),
    ensures
        (match spec_sheets_md(
            names@.map_values(|s: String| s@),
            csvs@.map_values(|s: String| vstd::utf8::encode_utf8(s@)),
            0,
            Seq::empty(),
        ) {
            Some(m) => if m.len() > 0 {
                r matches Ok(s) && s@ == m
            } else {
                r matches Err(e) && e is DocumentParse
            },
            None => r matches Err(e) && e is DocumentParse,
        }),
{
    let ghost nv = names@.map_values(|s: String| s@);
    let ghost cv = csvs@.map_values(|s: String| vstd::utf8::encode_utf8(s@));
    let mut combined = String::new();
    let mut i: usize = 0;
    while i < names.len()
        invariant
            0 <= i <= names@.len(),
            nv == names@.map_values(|s: String| s@),
            cv == csvs@.map_values(|s: String| vstd::utf8::encode_utf8(s@)),
            nv.len() == cv.len(),
            spec_sheets_md(nv, cv, i as int, combined@) == spec_sheets_md(
                nv,
                cv,
                0,
                Seq::empty(),
            ),
        decreases names@.len() - i,
    {
        let csv_bytes = csvs[i].as_str().as_bytes();
        proof {
            assert(csv_bytes@ == cv[i as int]);
        }
        let md = match crate::csvmd::run(csv_bytes) {
            Ok(m) => m,
            Err(_) => {
                proof {
                    assert(spec_sheets_md(nv, cv, i as int, combined@) is None);
                }
                return Err(
                    ConvertError::DocumentParse(
                        String::from_str("sheet table failed to render"),
                    ),
                );
            },
        };
        let ghost c0 = combined@;
        if combined.as_str().unicode_len() > 0 {
            combined.append("\n\n---\n\n");
        }
        combined.append("## Sheet: ");
        combined.append(names[i].as_str());
        combined.append("\n\n");
        combined.append(md.as_str());
        proof {
            let sep = if c0.len() > 0 {
                "\n\n---\n\n"@
            } else {
                Seq::<char>::empty()
            };
            assert(combined@ =~= c0 + sep + "## Sheet: "@ + nv[i as int] + "\n\n"@ + md@);
        }
        i = i + 1;
    }
    if combined.as_str().unicode_len() == 0 {
        proof {
            assert(spec_sheets_md(nv, cv, nv.len() as int, combined@) == Some(combined@));
        }
        return Err(ConvertError::DocumentParse(String::from_str("no sheets found")));
    }
    Ok(combined)
}

} // verus!
