//! What a query shows: a title line and the table drawn by `pretty_table`.
use vstd::prelude::*;
use vstd::string::StringExecFns;
use crate::text::{decimal_text, push_decimal, text_views};

verus! {

/// The lines that `pretty_table` draws for a grid of cells whose first row
/// is the header.
pub uninterp spec fn table_rendering(grid: Seq<Seq<Seq<char>>>) -> Seq<Seq<char>>;

/// The views of the rows of a grid of cells.
pub open spec fn grid_view(grid: Seq<Vec<String>>) -> Seq<Seq<Seq<char>>> {
    grid.map_values(|row: Vec<String>| text_views(row@))
}

/// Calls `pretty_table::table::generate_table_string_vec`. The lines it
/// returns are a fixed function of the cells; nothing is assumed about how
/// they look. It needs a header row, and no row longer than the header.
#[verifier::external_body]
pub(crate) fn render_table(grid: Vec<Vec<String>>) -> (lines: Vec<String>)
    requires
        grid@.len() >= 1,
        forall|i: int| 0 <= i < grid@.len() ==> (#[trigger] grid@[i])@.len() <= grid@[0]@.len(),
    ensures
        text_views(lines@) == table_rendering(grid_view(grid@)),
{
    pretty_table::table::generate_table_string_vec(grid, None)
}

/// The title line of a query's output.
pub open spec fn title_line(name: Seq<char>, total_rows: int) -> Seq<char> {
    "Table: "@ + name + " ["@ + decimal_text(total_rows) + " rows]"@
}

/// The title line for a table named `name` with `total_rows` rows.
pub fn title(name: &str, total_rows: usize) -> (line: String)
    ensures
        line@ == title_line(name@, total_rows as int),
{
    let mut line = String::new();
    line.append("Table: ");
    line.append(name);
    line.append(" [");
    push_decimal(&mut line, total_rows);
    line.append(" rows]");
    assert(line@ =~= title_line(name@, total_rows as int));
    line
}

} // verus!
