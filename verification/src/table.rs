//! The shared table synthesizer: rows of cell strings become a Markdown
//! pipe-table whose separator row is sized to the first row's cell count.

use vstd::prelude::*;
use crate::text::{push_str_chars, string_from_chars};

verus! {

/// The rendering of one row's cells: ` cell |` for each cell in order.
pub open spec fn cells_md(cells: Seq<Seq<char>>) -> Seq<char>
    decreases cells.len(),
{
    if cells.len() == 0 {
        Seq::empty()
    } else {
        cells_md(cells.drop_last()) + " "@ + cells.last() + " |"@
    }
}

/// One full table line: a leading pipe, the cells, a newline.
pub open spec fn row_md(cells: Seq<Seq<char>>) -> Seq<char> {
    "|"@ + cells_md(cells) + "\n"@
}

/// The separator cells: `---|` repeated `n` times.
pub open spec fn sep_cells(n: nat) -> Seq<char>
    decreases n,
{
    if n == 0 {
        Seq::empty()
    } else {
        sep_cells((n - 1) as nat) + "---|"@
    }
}

/// The separator line for a table of `n` columns.
pub open spec fn sep_md(n: nat) -> Seq<char> {
    "|"@ + sep_cells(n) + "\n"@
}

/// The rendering of the data rows, in order.
pub open spec fn body_md(rows: Seq<Seq<Seq<char>>>) -> Seq<char>
    decreases rows.len(),
{
    if rows.len() == 0 {
        Seq::empty()
    } else {
        body_md(rows.drop_last()) + row_md(rows.last())
    }
}

/// The full Markdown table: the first row as header, a separator sized to
/// the first row's cell count, then every remaining row as given. Empty
/// input renders to the empty string.
pub open spec fn spec_table_md(rows: Seq<Seq<Seq<char>>>) -> Seq<char> {
    if rows.len() == 0 {
        Seq::empty()
    } else {
        row_md(rows[0]) + sep_md(rows[0].len()) + body_md(rows.drop_first())
    }
}

/// The character-sequence view of a table held as vectors of strings.
pub open spec fn rows_view(rows: Seq<Vec<String>>) -> Seq<Seq<Seq<char>>> {
    rows.map_values(|r: Vec<String>| r@.map_values(|c: String| c@))
}

/// Renders one row into `out`.
fn push_row(out: &mut Vec<char>, row: &Vec<String>)
    ensures
        final(out)@ == old(out)@ + row_md(row@.map_values(|c: String| c@)),
{
    let ghost cells = row@.map_values(|c: String| c@);
    push_str_chars(out, "|");
    let mut j: usize = 0;
    while j < row.len()
        invariant
            0 <= j <= row@.len(),
            cells == row@.map_values(|c: String| c@),
            out@ == old(out)@ + "|"@ + cells_md(cells.subrange(0, j as int)),
        decreases row@.len() - j,
    {
        push_str_chars(out, " ");
        push_str_chars(out, row[j].as_str());
        push_str_chars(out, " |");
        proof {
            let pre = cells.subrange(0, j as int);
            let cur = cells.subrange(0, j + 1);
            assert(cur.drop_last() =~= pre);
            assert(cur.last() == cells[j as int]);
            assert(out@ =~= old(out)@ + "|"@ + cells_md(cur));
        }
        j = j + 1;
    }
    push_str_chars(out, "\n");
    proof {
        assert(cells.subrange(0, cells.len() as int) =~= cells);
        assert(final(out)@ =~= old(out)@ + row_md(cells));
    }
}

/// Renders rows of cell strings as a Markdown table.
///
/// The first row becomes the header, followed by a `---|` separator for
/// each of its cells; every later row renders exactly as given, with no
/// padding or truncation. Empty input yields the empty string.
pub fn format_table_as_markdown(rows: &Vec<Vec<String>>) -> (r: String)
    ensures
        r@ == spec_table_md(rows_view(rows@)),
        rows@.len() == 0 ==> r@ == Seq::<char>::empty(),
{
    let ghost v = rows_view(rows@);
    let mut out: Vec<char> = Vec::new();
    if rows.len() == 0 {
        let r = string_from_chars(&out);
        return r;
    }
    push_row(&mut out, &rows[0]);
    push_str_chars(&mut out, "|");
    let n = rows[0].len();
    let mut k: usize = 0;
    while k < n
        invariant
            0 <= k <= n,
            rows@.len() > 0,
            n == v[0].len(),
            v == rows_view(rows@),
            out@ == row_md(v[0]) + "|"@ + sep_cells(k as nat),
        decreases n - k,
    {
        push_str_chars(&mut out, "---|");
        k = k + 1;
    }
    push_str_chars(&mut out, "\n");
    let mut i: usize = 1;
    while i < rows.len()
        invariant
            1 <= i <= rows@.len(),
            v == rows_view(rows@),
            out@ == row_md(v[0]) + sep_md(v[0].len()) + body_md(
                v.subrange(1, i as int),
            ),
        decreases rows@.len() - i,
    {
        push_row(&mut out, &rows[i]);
        proof {
            let pre = v.subrange(1, i as int);
            let cur = v.subrange(1, i + 1);
            assert(cur.drop_last() =~= pre);
            assert(cur.last() == v[i as int]);
        }
        i = i + 1;
    }
    proof {
        assert(v.subrange(1, v.len() as int) =~= v.drop_first());
        assert(out@ =~= spec_table_md(v));
    }
    string_from_chars(&out)
}

} // verus!
