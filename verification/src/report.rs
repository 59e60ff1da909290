//! The census as a table in text: one header line that names the levels,
//! then one line per block type.

use crate::block_count::{BlockCount, Row};
use crate::text::{decimal, push_decimal};
use crate::y_range::y_len;
use std::ops::Range;
use vstd::prelude::*;

verus! {

/// The header up to and without level `start + n`: the label of the first
/// column, then one column `y_` and the level for each level.
pub open spec fn header_text(start: int, n: nat) -> Seq<char>
    decreases n,
{
    if n == 0 {
        "block_type"@
    } else {
        header_text(start, (n - 1) as nat) + ",y_"@ + decimal(start + n - 1)
    }
}

/// The first `n` counts of a row, a comma before each.
pub open spec fn counts_text(counts: Seq<isize>, n: nat) -> Seq<char>
    decreases n,
{
    if n == 0 {
        Seq::empty()
    } else {
        counts_text(counts, (n - 1) as nat) + ","@ + decimal(counts[n - 1] as int)
    }
}

/// One line of the table: the name between double quotes, then the counts.
pub open spec fn row_text(row: Row) -> Seq<char> {
    "\""@ + row.0@ + "\""@ + counts_text(row.1@, row.1@.len()) + "\n"@
}

/// The lines of the first `n` rows.
pub open spec fn rows_text(rows: Seq<Row>, n: nat) -> Seq<char>
    decreases n,
{
    if n == 0 {
        Seq::empty()
    } else {
        rows_text(rows, (n - 1) as nat) + row_text(rows[n - 1])
    }
}

/// The whole table.
pub open spec fn csv_text(range: Range<isize>, rows: Seq<Row>) -> Seq<char> {
    header_text(range.start as int, y_len(range)) + "\n"@ + rows_text(rows, rows.len())
}

/// Renders the census as comma-separated text: the header names each level
/// of the range, and each block type follows on a line of its own, in the
/// order of the names, with its count at each level.
pub fn render_csv(counts: &BlockCount) -> (s: String)
    requires
        counts.wf(),
    ensures
        s@ == csv_text(counts.y_range(), counts.rows()),
{
    proof {
        counts.lemma_wf();
    }
    let range = counts.world_y_range();
    let rows = counts.block_count();
    let mut s = "block_type".to_string();
    let mut y: isize = range.start;
    while y < range.end
        invariant
            range.start <= y <= range.end,
            range.end - range.start <= isize::MAX,
            s@ == header_text(range.start as int, (y - range.start) as nat),
        decreases range.end - y,
    {
        s.append(",y_");
        push_decimal(&mut s, y);
        y += 1;
    }
    s.append("\n");
    let ghost head = s@;
    let mut i: usize = 0;
    while i < rows.len()
        invariant
            i <= rows.len(),
            s@ == head + rows_text(rows@, i as nat),
        decreases rows.len() - i,
    {
        s.append("\"");
        s.append(rows[i].0.as_str());
        s.append("\"");
        let ghost lead = s@;
        let mut j: usize = 0;
        while j < rows[i].1.len()
            invariant
                i < rows.len(),
                j <= rows[i as int].1.len(),
                s@ == lead + counts_text(rows[i as int].1@, j as nat),
            decreases rows[i as int].1.len() - j,
        {
            s.append(",");
            push_decimal(&mut s, rows[i].1[j]);
            j += 1;
        }
        s.append("\n");
        i += 1;
    }
    s
}

} // verus!
