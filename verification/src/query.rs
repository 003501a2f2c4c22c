//! What queries show, stated for all tables: which columns a query picks,
//! and where in a row each cell is read.
use vstd::prelude::*;
use crate::disk::overlay;
use crate::table::{
    field_text, header_cells, lemma_rows_per_page, row_cells, row_width, ColumnType, ColumnView,
    DataType, TableView,
};

verus! {

/// The names of the columns of a schema, in order.
pub open spec fn column_names(columns: Seq<ColumnView>) -> Seq<Seq<char>> {
    columns.map_values(|c: ColumnView| c.name)
}

/// The slot of column `k` in a row: the bytes from the width of the columns
/// before it to the width of the columns up to it.
pub open spec fn slot_of(columns: Seq<ColumnView>, row: Seq<u8>, k: int) -> Seq<u8> {
    row.subrange(row_width(columns.take(k)), row_width(columns.take(k + 1)))
}

/// Every table starts with its identifier column, which holds a UUID.
pub proof fn lemma_schema_starts_with_id(table: TableView)
    requires
        table.wf(),
    ensures
        table.columns.len() >= 1,
        table.columns[0].col_type == ColumnType::ID,
        table.columns[0].data_type == DataType::UUID,
        forall|k: int| 1 <= k < table.columns.len() ==> (#[trigger] table.columns[k]).col_type
            == ColumnType::FIELD,
{
    assert forall|k: int| 1 <= k < table.columns.len() implies (#[trigger] table.columns[k]).col_type
        == ColumnType::FIELD by {
        assert(table.columns[k].is_field());
    }
}

/// The sum of the column widths is the stride of every page of a table:
/// the width of its rows, the distance between the slots that a reader
/// takes rows from, and the place where an insert puts the next row.
pub proof fn lemma_row_size_is_stride(table: TableView, disk: Seq<u8>, r: int, row: Seq<u8>)
    requires
        table.wf(),
        0 <= r,
    ensures
        table.row_size() == row_width(table.columns),
        forall|p: int| 0 <= p ==> (#[trigger] table.page(disk, p)).row_size == row_width(
            table.columns,
        ),
        table.row(disk, r) == table.page(disk, r / table.rows_per_page()).data.subrange(
            (r % table.rows_per_page()) * row_width(table.columns),
            (r % table.rows_per_page() + 1) * row_width(table.columns),
        ),
        ({
            let p = table.total_rows / table.rows_per_page();
            table.insert(disk, row).0.pages[p]->0.data == overlay(
                table.page(disk, p).data,
                table.page(disk, p).current_row * row_width(table.columns),
                row,
            )
        }),
{
    lemma_rows_per_page(table);
    let p = table.total_rows / table.rows_per_page();
    assert(0 <= p) by (nonlinear_arith)
        requires
            p == table.total_rows / table.rows_per_page(),
            table.total_rows >= 0,
            table.rows_per_page() >= 1,
    ;
}

/// A query for `*` shows every column, the identifier included: the header
/// holds all names, and every row has a cell for each column, read from
/// that column's slot.
pub proof fn lemma_select_all(columns: Seq<ColumnView>, row: Seq<u8>, requested: Seq<Seq<char>>)
    requires
        requested.contains("*"@),
    ensures
        header_cells(columns, requested) == column_names(columns),
        row_cells(columns, row, requested).len() == columns.len(),
        forall|k: int|
            0 <= k < columns.len() ==> #[trigger] row_cells(columns, row, requested)[k]
                == field_text(columns[k], slot_of(columns, row, k)),
    decreases columns.len(),
{
    if columns.len() > 0 {
        let front = columns.drop_last();
        lemma_select_all(front, row, requested);
        assert(header_cells(columns, requested) =~= column_names(columns));
        let n = columns.len() - 1;
        assert(columns.take(n) =~= front);
        assert(columns.take(n + 1) =~= columns);
        assert forall|k: int| 0 <= k < columns.len() implies #[trigger] row_cells(
            columns,
            row,
            requested,
        )[k] == field_text(columns[k], slot_of(columns, row, k)) by {
            if k < n {
                assert(front.take(k) =~= columns.take(k));
                assert(front.take(k + 1) =~= columns.take(k + 1));
                assert(row_cells(front, row, requested)[k] == field_text(
                    front[k],
                    slot_of(front, row, k),
                ));
            }
        }
    } else {
        assert(header_cells(columns, requested) =~= column_names(columns));
    }
}

/// A query that names no column of the table, and not `*`, shows no
/// column: the header is empty, and so is every row.
pub proof fn lemma_select_missing(
    columns: Seq<ColumnView>,
    row: Seq<u8>,
    requested: Seq<Seq<char>>,
)
    requires
        !requested.contains("*"@),
        forall|k: int| 0 <= k < columns.len() ==> !requested.contains((#[trigger] columns[k]).name),
    ensures
        header_cells(columns, requested) == Seq::<Seq<char>>::empty(),
        row_cells(columns, row, requested) == Seq::<Seq<char>>::empty(),
    decreases columns.len(),
{
    if columns.len() > 0 {
        let front = columns.drop_last();
        assert forall|k: int| 0 <= k < front.len() implies !requested.contains(
            (#[trigger] front[k]).name,
        ) by {
            assert(front[k] == columns[k]);
        }
        lemma_select_missing(front, row, requested);
        assert(columns.last() == columns[columns.len() - 1]);
    }
}

/// A query on a table without rows shows the header row only.
pub proof fn lemma_select_empty(table: TableView, disk: Seq<u8>, requested: Seq<Seq<char>>)
    requires
        table.total_rows == 0,
    ensures
        table.grid(disk, requested) == seq![header_cells(table.columns, requested)],
{
    assert(table.grid(disk, requested) =~= seq![header_cells(table.columns, requested)]);
}

} // verus!
