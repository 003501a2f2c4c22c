//! What is written to the catalog reads back: columns, table entries, and
//! the whole catalog when the backing file is opened again.
use vstd::prelude::*;
use crate::ids::version_7;
use vstd::bytes::{
    lemma_auto_spec_u16_to_from_le_bytes, lemma_auto_spec_u64_to_from_le_bytes,
    spec_u16_from_le_bytes, spec_u16_to_le_bytes, spec_u64_from_le_bytes, spec_u64_to_le_bytes,
};
use vstd::utf8::encode_utf8;
use crate::database::{
    entries, entries_len, find, header_image, lemma_entries_prefix_len, lemma_find,
    lemma_table_entry_len, new_table, DataBaseView,
};
use crate::disk::{byte_at, read_range, write_range, zeros};
use crate::meta::{
    column_entries, column_entry, entry_len, lemma_column_entries_len, name_field, stored_column,
    stored_columns, stored_name, stored_table, table_entry, type_tag, StoredTable,
    COLUMN_ENTRY_SIZE, NAME_SIZE,
};
use crate::insertion::{
    in_step, lemma_header_write_keeps_rows, lemma_insert_appends, lemma_new_table_settled,
    lemma_next_row, lemma_page_from_disk, lemma_page_wf, lemma_row_numbers,
    lemma_settled_ignores_disk, lemma_write_keeps_before,
};
use crate::processor::{ProcessorView, StatementView};
use crate::rows::{lemma_row_bytes_len, matched_values, row_bytes};
use crate::roundtrip::{fits_slot, lemma_stored_text_reads_back};
use crate::table::{
    acceptable, has_id, lemma_rows_fit, lemma_rows_per_page, with_id, ColumnView, PageView,
    TableView, META_SIZE, PAGE_SIZE,
};

verus! {

/// A name that the catalog stores whole: its UTF-8 bytes fit in 32 bytes
/// and do not end in a zero byte.
pub open spec fn storable(name: Seq<char>) -> bool {
    fits_slot(encode_utf8(name), NAME_SIZE as int)
}

/// A column that the catalog stores whole: the identifier or a field, with
/// a name that it stores whole.
pub open spec fn canonical(column: ColumnView) -> bool {
    (column.is_id() || column.is_field()) && storable(column.name)
}

/// A table whose name and column names the catalog stores whole.
pub open spec fn names_storable(table: TableView) -> bool {
    &&& storable(table.name)
    &&& forall|k: int| 0 <= k < table.columns.len() ==> storable((#[trigger] table.columns[k]).name)
}

/// A stored name reads back as the name that was written.
pub proof fn lemma_name_reads_back(name: Seq<char>)
    requires
        storable(name),
    ensures
        stored_name(name_field(name)) == name,
{
    lemma_stored_text_reads_back(name, NAME_SIZE as int);
}

/// A column entry reads back as the column that was written, in name,
/// size, kind and data type, for each of the three type tags.
pub proof fn lemma_column_reads_back(column: ColumnView, header: Seq<u8>, at: int)
    requires
        canonical(column),
        0 <= at,
        at + COLUMN_ENTRY_SIZE <= header.len(),
        header.subrange(at, at + COLUMN_ENTRY_SIZE as int) == column_entry(column),
    ensures
        stored_column(header, at) == Some(column),
{
    let entry = header.subrange(at, at + COLUMN_ENTRY_SIZE as int);
    assert(header.subrange(at, at + NAME_SIZE as int) =~= name_field(column.name)) by {
        assert forall|i: int| 0 <= i < NAME_SIZE implies header.subrange(
            at,
            at + NAME_SIZE as int,
        )[i] == name_field(column.name)[i] by {
            assert(entry[i] == header[at + i]);
        }
    }
    assert(entry[NAME_SIZE as int] == header[at + NAME_SIZE as int]);
    assert(column_entry(column)[NAME_SIZE as int] == type_tag(column.data_type));
    lemma_name_reads_back(column.name);
}

/// The entries of a run of columns read back as the columns that were
/// written.
pub proof fn lemma_columns_read_back(columns: Seq<ColumnView>, header: Seq<u8>, offset: int)
    requires
        forall|k: int| 0 <= k < columns.len() ==> canonical(#[trigger] columns[k]),
        0 <= offset,
        offset + COLUMN_ENTRY_SIZE * columns.len() <= header.len(),
        header.subrange(offset, offset + COLUMN_ENTRY_SIZE * columns.len()) == column_entries(
            columns,
        ),
    ensures
        stored_columns(header, offset, columns.len() as int) == Ok::<Seq<ColumnView>, Seq<char>>(
            columns,
        ),
    decreases columns.len(),
{
    if columns.len() > 0 {
        let n = columns.len() - 1;
        let front = columns.drop_last();
        let at = offset + COLUMN_ENTRY_SIZE * n;
        let all = header.subrange(offset, offset + COLUMN_ENTRY_SIZE * columns.len());
        lemma_column_entries_len(front);
        lemma_column_entries_len(columns);
        assert forall|k: int| 0 <= k < front.len() implies canonical(#[trigger] front[k]) by {
            assert(front[k] == columns[k]);
        }
        assert(header.subrange(offset, offset + COLUMN_ENTRY_SIZE * n) =~= column_entries(front))
            by {
            assert forall|i: int| 0 <= i < COLUMN_ENTRY_SIZE * n implies header.subrange(
                offset,
                offset + COLUMN_ENTRY_SIZE * n,
            )[i] == column_entries(front)[i] by {
                assert(all[i] == header[offset + i]);
            }
        }
        lemma_columns_read_back(front, header, offset);
        assert(header.subrange(at, at + COLUMN_ENTRY_SIZE as int) =~= column_entry(
            columns.last(),
        )) by {
            assert forall|i: int| 0 <= i < COLUMN_ENTRY_SIZE implies header.subrange(
                at,
                at + COLUMN_ENTRY_SIZE as int,
            )[i] == column_entry(columns.last())[i] by {
                assert(all[COLUMN_ENTRY_SIZE * n + i] == header[at + i]);
            }
        }
        lemma_column_reads_back(columns.last(), header, at);
        assert(front.push(columns.last()) =~= columns);
        assert(front.len() == n);
        assert(stored_columns(header, offset, n) == Ok::<Seq<ColumnView>, Seq<char>>(front));
        assert(at == offset + COLUMN_ENTRY_SIZE as int * (n + 1 - 1));
        assert(stored_column(header, at) == Some(columns.last()));
        assert(stored_columns(header, offset, n + 1) == Ok::<Seq<ColumnView>, Seq<char>>(
            front.push(columns.last()),
        ));
    } else {
        assert(columns =~= Seq::<ColumnView>::empty());
    }
}

/// What a table's entry holds of the table.
pub open spec fn stored_of(table: TableView) -> StoredTable {
    StoredTable {
        name: table.name,
        columns: table.columns,
        total_rows: table.total_rows,
        start_offset: table.start_offset,
    }
}

/// A table's entry reads back as the name, columns, row count and data
/// offset that were written.
pub proof fn lemma_table_reads_back(table: TableView, header: Seq<u8>, offset: int)
    requires
        table.wf(),
        names_storable(table),
        0 <= offset,
        offset + entry_len(table) <= header.len(),
        header.subrange(offset, offset + entry_len(table)) == table_entry(table),
    ensures
        stored_table(header, offset) == Ok::<StoredTable, Seq<char>>(stored_of(table)),
{
    lemma_rows_per_page(table);
    lemma_auto_spec_u16_to_from_le_bytes();
    lemma_auto_spec_u64_to_from_le_bytes();
    lemma_column_entries_len(table.columns);
    lemma_table_entry_len(table);
    let n = table.columns.len() as int;
    let entry = header.subrange(offset, offset + entry_len(table));
    let name = name_field(table.name);
    let rows = spec_u16_to_le_bytes(table.total_rows as u16);
    let start = spec_u64_to_le_bytes(table.start_offset as u64);
    let columns = column_entries(table.columns);
    assert(entry == name + seq![n as u8] + rows + start + columns);
    assert forall|i: int| 0 <= i < entry_len(table) implies header[offset + i] == #[trigger] entry[i] by {}
    assert(header.subrange(offset, offset + NAME_SIZE as int) =~= name) by {
        assert forall|i: int| 0 <= i < NAME_SIZE implies header.subrange(
            offset,
            offset + NAME_SIZE as int,
        )[i] == name[i] by {
            assert(header[offset + i] == entry[i]);
        }
    }
    assert(header[offset + NAME_SIZE as int] == n as u8) by {
        assert(header[offset + 32] == entry[32]);
    }
    assert(header.subrange(offset + 33, offset + 35) =~= rows) by {
        assert forall|i: int| 0 <= i < 2 implies header.subrange(offset + 33, offset + 35)[i]
            == rows[i] by {
            assert(header[offset + 33 + i] == entry[33 + i]);
        }
    }
    assert(header.subrange(offset + 35, offset + 43) =~= start) by {
        assert forall|i: int| 0 <= i < 8 implies header.subrange(offset + 35, offset + 43)[i]
            == start[i] by {
            assert(header[offset + 35 + i] == entry[35 + i]);
        }
    }
    assert(header.subrange(offset + 43, offset + 43 + COLUMN_ENTRY_SIZE * n) =~= columns) by {
        assert forall|i: int| 0 <= i < COLUMN_ENTRY_SIZE * n implies header.subrange(
            offset + 43,
            offset + 43 + COLUMN_ENTRY_SIZE * n,
        )[i] == columns[i] by {
            assert(header[offset + 43 + i] == entry[43 + i]);
        }
    }
    assert forall|k: int| 0 <= k < table.columns.len() implies canonical(
        #[trigger] table.columns[k],
    ) by {
        if k >= 1 {
            assert(table.columns[k].is_field());
        }
    }
    lemma_columns_read_back(table.columns, header, offset + 43);
    lemma_name_reads_back(table.name);
    assert(spec_u16_from_le_bytes(rows) == table.total_rows as u16);
    assert(spec_u64_from_le_bytes(start) == table.start_offset as u64);
}

/// A table as it is after the backing file is opened again: as it was,
/// with no page in memory.
pub open spec fn closed(table: TableView) -> TableView {
    TableView { pages: Seq::<Option<PageView>>::empty(), ..table }
}

/// The tables of a catalog as they are after the backing file is opened
/// again.
pub open spec fn closed_all(tables: Seq<TableView>) -> Seq<TableView> {
    tables.map_values(|t: TableView| closed(t))
}

/// The entries of tables are as long with their pages in memory as
/// without.
pub proof fn lemma_closed_entries_len(tables: Seq<TableView>)
    ensures
        entries_len(closed_all(tables)) == entries_len(tables),
    decreases tables.len(),
{
    if tables.len() > 0 {
        lemma_closed_entries_len(tables.drop_last());
        assert(closed_all(tables).drop_last() =~= closed_all(tables.drop_last()));
    }
}

/// The entry of table `k` lies in the entries of all tables after the
/// entries of the tables before it.
pub proof fn lemma_entry_in_entries(tables: Seq<TableView>, k: int)
    requires
        0 <= k < tables.len(),
    ensures
        entries_len(tables.take(k + 1)) == entries_len(tables.take(k)) + entry_len(tables[k]),
        0 <= entries_len(tables.take(k)),
        entries_len(tables.take(k + 1)) <= entries_len(tables),
        entries(tables).len() == entries_len(tables),
        entries(tables).subrange(entries_len(tables.take(k)), entries_len(tables.take(k + 1)))
            == table_entry(tables[k]),
    decreases tables.len(),
{
    let n = tables.len() - 1;
    let front = tables.drop_last();
    lemma_entries_prefix_len(front);
    lemma_entries_prefix_len(tables);
    lemma_entries_prefix_len(tables.take(k));
    lemma_table_entry_len(tables.last());
    assert(tables.take(k + 1).drop_last() =~= tables.take(k));
    assert(tables.take(n) =~= front);
    assert(tables.take(n + 1) =~= tables);
    if k == n {
        assert(entries(tables).subrange(entries_len(front), entries_len(tables)) =~= table_entry(
            tables[k],
        ));
    } else {
        lemma_entry_in_entries(front, k);
        assert(front.take(k) =~= tables.take(k));
        assert(front.take(k + 1) =~= tables.take(k + 1));
        assert(entries(tables).subrange(
            entries_len(tables.take(k)),
            entries_len(tables.take(k + 1)),
        ) =~= entries(front).subrange(
            entries_len(tables.take(k)),
            entries_len(tables.take(k + 1)),
        ));
    }
}

/// The first entries of a header that a flush wrote read back as the
/// first tables of the catalog, with no page in memory.
pub proof fn lemma_entries_read_back(db: DataBaseView, disk: Seq<u8>, k: int)
    requires
        db.wf(),
        forall|i: int| 0 <= i < db.tables.len() ==> names_storable(#[trigger] db.tables[i]),
        0 <= k <= db.tables.len(),
    ensures
        DataBaseView::loaded(db.header(), disk, k) == Ok::<(DataBaseView, int), Seq<char>>(
            (
                DataBaseView { num_tables: k, tables: closed_all(db.tables.take(k)), disk },
                1 + entries_len(db.tables.take(k)),
            ),
        ),
    decreases k,
{
    let header = db.header();
    if k == 0 {
        assert(closed_all(db.tables.take(0)) =~= Seq::<TableView>::empty());
        assert(db.tables.take(0) =~= Seq::<TableView>::empty());
    } else {
        lemma_entries_read_back(db, disk, k - 1);
        let table = db.tables[k - 1];
        let before = DataBaseView {
            num_tables: k - 1,
            tables: closed_all(db.tables.take(k - 1)),
            disk,
        };
        let offset = 1 + entries_len(db.tables.take(k - 1));
        lemma_entry_in_entries(db.tables, k - 1);
        assert(table.wf());
        assert(header.subrange(offset, offset + entry_len(table)) =~= table_entry(table)) by {
            let all = entries(db.tables);
            let part = all.subrange(offset - 1, offset - 1 + entry_len(table));
            assert forall|i: int| 0 <= i < entry_len(table) implies header.subrange(
                offset,
                offset + entry_len(table),
            )[i] == table_entry(table)[i] by {
                assert(header[offset + i] == all[offset - 1 + i]);
                assert(part[i] == all[offset - 1 + i]);
            }
        }
        lemma_table_reads_back(table, header, offset);
        lemma_rows_per_page(table);
        assert(table.columns[0].col_type == crate::table::ColumnType::ID);
        assert(has_id(table.columns));
        assert(acceptable(table.columns, table.total_rows, table.start_offset));
        assert(new_table(table.name, table.columns, table.total_rows, table.start_offset)
            == closed(table));
        lemma_find(before.tables, table.name);
        assert(find(before.tables, table.name) is None) by {
            if find(before.tables, table.name) is Some {
                let j = find(before.tables, table.name)->0;
                assert(before.tables[j].name == db.tables[j].name);
                assert(db.tables[j].name != db.tables[k - 1].name);
            }
        }
        assert(before.tables.push(closed(table)) =~= closed_all(db.tables.take(k)));
        lemma_closed_entries_len(db.tables.take(k));
        assert(before.with_table(closed(table)).meta_len() <= META_SIZE);
        assert(before.add_error(
            table.name,
            table.columns,
            table.total_rows,
            table.start_offset,
            false,
        ) is None);
        assert(before.added(
            table.name,
            table.columns,
            table.total_rows,
            table.start_offset,
            false,
        ) == (DataBaseView { num_tables: k, tables: closed_all(db.tables.take(k)), disk }));
        assert(stored_table(header, offset) == Ok::<StoredTable, Seq<char>>(stored_of(table)));
    }
}

/// Opening the backing file after a flush gives the catalog back: the
/// same count, and the same tables in name, schema, row count and data
/// offset, with no page in memory. This holds where all names are stored
/// whole.
pub proof fn lemma_reopen(db: DataBaseView)
    requires
        db.wf(),
        forall|i: int| 0 <= i < db.tables.len() ==> names_storable(#[trigger] db.tables[i]),
    ensures
        DataBaseView::opened(db.flushed().disk) == Ok::<DataBaseView, Seq<char>>(
            DataBaseView {
                num_tables: db.num_tables,
                tables: closed_all(db.tables),
                disk: db.flushed().disk,
            },
        ),
{
    let disk = db.flushed().disk;
    lemma_entries_prefix_len(db.tables);
    crate::database::lemma_entries_len_lower(db.tables);
    assert(db.header().len() == META_SIZE);
    assert(header_image(disk) =~= db.header());
    assert(db.header()[0] == db.num_tables as u8);
    lemma_entries_read_back(db, disk, db.tables.len() as int);
    assert(db.tables.take(db.tables.len() as int) =~= db.tables);
}

/// Row `r` of a table as the backing file holds it: the bytes of its slot
/// on its page, zeros past the end of the file.
pub open spec fn row_on_disk(table: TableView, disk: Seq<u8>, r: int) -> Seq<u8> {
    Seq::new(
        table.row_size() as nat,
        |i: int|
            byte_at(
                disk,
                table.page_offset(r / table.rows_per_page()) + (r % table.rows_per_page())
                    * table.row_size() + i,
            ),
    )
}

/// The pages in memory hold what the backing file holds: every row that
/// lies on a page in memory is in the file, byte for byte.
pub open spec fn clean(table: TableView, disk: Seq<u8>) -> bool {
    forall|r: int|
        0 <= r < table.total_rows && table.resident(r / table.rows_per_page())
            ==> #[trigger] table.row(disk, r) == row_on_disk(table, disk, r)
}

/// A row that is read from the backing file is the row that the file
/// holds.
pub proof fn lemma_row_from_disk(table: TableView, disk: Seq<u8>, r: int)
    requires
        table.wf(),
        0 <= r < table.total_rows,
        !table.resident(r / table.rows_per_page()),
    ensures
        table.row(disk, r) == row_on_disk(table, disk, r),
{
    lemma_rows_per_page(table);
    let rs = table.row_size();
    let rpp = table.rows_per_page();
    let q = r / rpp;
    let s = r % rpp;
    lemma_row_numbers(table.total_rows, rpp, r);
    assert(q * rpp <= r) by (nonlinear_arith)
        requires
            r == q * rpp + s,
            s >= 0,
    ;
    assert(0 <= table.page_offset(q)) by (nonlinear_arith)
        requires
            table.page_offset(q) == table.start_offset + q * PAGE_SIZE,
            q >= 0,
            table.start_offset >= 0,
    ;
    lemma_page_from_disk(rs, disk, table.page_offset(q));
    lemma_rows_fit(s, rs);
    lemma_rows_fit(s + 1, rs);
    assert((s + 1) * rs == s * rs + rs) by (nonlinear_arith);
    assert(table.row(disk, r) =~= row_on_disk(table, disk, r));
}

/// What filling a page from the backing file gives: the bytes of the file
/// from the page's offset on, up to a page of them, over the start of the
/// buffer, and zeros after them; the next free slot follows the last whole
/// row among the bytes read. So every row that the file holds on that page
/// is in its slot, byte for byte.
pub proof fn lemma_fill_reads_file(table: TableView, disk: Seq<u8>, p: int)
    requires
        table.wf(),
        0 <= p,
    ensures
        ({
            let offset = table.page_offset(p);
            let read = if disk.len() <= offset {
                0
            } else if disk.len() - offset < PAGE_SIZE {
                disk.len() - offset
            } else {
                PAGE_SIZE as int
            };
            let page = PageView::empty(table.row_size()).filled(
                read_range(disk, offset, PAGE_SIZE as int),
            );
            &&& page.data.len() == PAGE_SIZE
            &&& forall|i: int| 0 <= i < read ==> #[trigger] page.data[i] == disk[offset + i]
            &&& forall|i: int| read <= i < PAGE_SIZE ==> #[trigger] page.data[i] == 0
            &&& page.current_row == read / table.row_size()
            &&& forall|j: int|
                0 <= j < table.rows_per_page() ==> #[trigger] page.row(j) == row_on_disk(
                    table,
                    disk,
                    p * table.rows_per_page() + j,
                )
        }),
{
    lemma_rows_per_page(table);
    let rs = table.row_size();
    let rpp = table.rows_per_page();
    let offset = table.page_offset(p);
    assert(0 <= offset) by (nonlinear_arith)
        requires
            offset == table.start_offset + p * PAGE_SIZE,
            p >= 0,
            table.start_offset >= 0,
    ;
    lemma_page_from_disk(rs, disk, offset);
    let page = PageView::empty(rs).filled(read_range(disk, offset, PAGE_SIZE as int));
    assert forall|j: int| 0 <= j < rpp implies #[trigger] page.row(j) == row_on_disk(
        table,
        disk,
        p * rpp + j,
    ) by {
        let r = p * rpp + j;
        assert(r >= 0) by (nonlinear_arith)
            requires
                r == p * rpp + j,
                p >= 0,
                rpp >= 1,
                j >= 0,
        ;
        vstd::arithmetic::div_mod::lemma_fundamental_div_mod_converse(r, rpp, p, j);
        lemma_rows_fit(j, rs);
        lemma_rows_fit(j + 1, rs);
        assert((j + 1) * rs == j * rs + rs) by (nonlinear_arith);
        assert(page.row(j) =~= row_on_disk(table, disk, r));
    }
}

/// Where an insert puts the row in the backing file: at the table's data
/// offset, a page of 4096 bytes on for each page before the row's, and a
/// row's width on for each row before it on its page. The row lies within
/// its page.
pub proof fn lemma_insert_lands_in_file(table: TableView, disk: Seq<u8>, row: Seq<u8>)
    requires
        table.wf(),
        row.len() == table.row_size(),
        table.total_rows < table.capacity(),
        in_step(table, disk),
    ensures
        row_on_disk(table.insert(disk, row).0, table.insert(disk, row).1, table.total_rows)
            == row,
        (table.total_rows % table.rows_per_page() + 1) * table.row_size() <= PAGE_SIZE,
        forall|i: int|
            0 <= i < row.len() ==> #[trigger] row[i] == byte_at(
                table.insert(disk, row).1,
                table.start_offset + (table.total_rows / table.rows_per_page()) * PAGE_SIZE + (
                table.total_rows % table.rows_per_page()) * table.row_size() + i,
            ),
{
    lemma_rows_per_page(table);
    let rs = table.row_size();
    let rpp = table.rows_per_page();
    let total = table.total_rows;
    let p = total / rpp;
    let slot = total % rpp;
    let after = table.insert(disk, row).0;
    let image = table.insert(disk, row).1;
    let page2 = table.page(disk, p).with_row(row);
    lemma_next_row(total, rpp);
    lemma_page_wf(table, disk, p);
    lemma_rows_fit(slot, rs);
    lemma_rows_fit(slot + 1, rs);
    assert((slot + 1) * rs == slot * rs + rs) by (nonlinear_arith);
    assert(0 <= table.page_offset(p)) by (nonlinear_arith)
        requires
            table.page_offset(p) == table.start_offset + p * PAGE_SIZE,
            p >= 0,
            table.start_offset >= 0,
    ;
    assert(after.rows_per_page() == rpp);
    assert(after.row_size() == rs);
    assert forall|i: int| 0 <= i < row.len() implies #[trigger] row[i] == byte_at(
        image,
        table.start_offset + p * PAGE_SIZE + slot * rs + i,
    ) by {
        assert(page2.used()[slot * rs + i] == row[i]);
    }
    assert(row_on_disk(after, image, total) =~= row);
}

/// After the backing file is opened again, a table whose pages in memory
/// held what the file holds has the same rows, byte for byte and in the
/// same order.
pub proof fn lemma_reopen_keeps_rows(table: TableView, disk: Seq<u8>)
    requires
        table.wf(),
        clean(table, disk),
    ensures
        closed(table).rows(disk) == table.rows(disk),
{
    lemma_rows_per_page(table);
    assert forall|r: int| 0 <= r < table.total_rows implies closed(table).row(disk, r)
        == table.row(disk, r) by {
        assert(closed(table).wf());
        lemma_row_from_disk(closed(table), disk, r);
        assert(row_on_disk(closed(table), disk, r) == row_on_disk(table, disk, r));
        if table.resident(r / table.rows_per_page()) {
            assert(table.row(disk, r) == row_on_disk(table, disk, r));
        } else {
            lemma_row_from_disk(table, disk, r);
        }
    }
    assert(closed(table).rows(disk) =~= table.rows(disk));
}

/// A table without a page in memory holds what the backing file holds.
pub proof fn lemma_closed_is_clean(table: TableView, disk: Seq<u8>)
    requires
        table.pages.len() == 0,
    ensures
        clean(table, disk),
{
}

/// An insert into a table that is in step, and whose pages in memory hold
/// what the backing file holds, leaves it so: the row is in the file when
/// the insert returns.
pub proof fn lemma_insert_keeps_clean(table: TableView, disk: Seq<u8>, row: Seq<u8>)
    requires
        table.wf(),
        row.len() == table.row_size(),
        table.total_rows < table.capacity(),
        in_step(table, disk),
        clean(table, disk),
    ensures
        clean(table.insert(disk, row).0, table.insert(disk, row).1),
{
    lemma_rows_per_page(table);
    lemma_insert_appends(table, disk, row);
    let rs = table.row_size();
    let rpp = table.rows_per_page();
    let total = table.total_rows;
    let p = total / rpp;
    let slot = total % rpp;
    let after = table.insert(disk, row).0;
    let image = table.insert(disk, row).1;
    let page2 = table.page(disk, p).with_row(row);
    lemma_next_row(total, rpp);
    lemma_page_wf(table, disk, p);
    lemma_rows_fit(slot + 1, rs);
    assert(0 <= table.page_offset(p)) by (nonlinear_arith)
        requires
            table.page_offset(p) == table.start_offset + p * PAGE_SIZE,
            p >= 0,
            table.start_offset >= 0,
    ;
    assert forall|r: int|
        0 <= r < after.total_rows && after.resident(r / after.rows_per_page()) implies #[trigger] after.row(
        image,
        r,
    ) == row_on_disk(after, image, r) by {
        lemma_row_numbers(total + 1, rpp, r);
        let q = r / rpp;
        let s = r % rpp;
        lemma_rows_fit(s, rs);
        lemma_rows_fit(s + 1, rs);
        assert((s + 1) * rs == s * rs + rs) by (nonlinear_arith);
        if q == p {
            assert(s <= slot);
            assert((s + 1) * rs <= (slot + 1) * rs) by (nonlinear_arith)
                requires
                    s <= slot,
                    rs > 0,
            ;
            assert(after.row(image, r) =~= row_on_disk(after, image, r));
        } else {
            assert(q < p);
            assert(after.pages[q] == table.pages[q]);
            assert(table.resident(q));
            assert(r < total) by (nonlinear_arith)
                requires
                    r == q * rpp + s,
                    s < rpp,
                    q + 1 <= p,
                    total == p * rpp + slot,
                    slot >= 0,
                    rpp > 0,
            ;
            assert(table.row(disk, r) == row_on_disk(table, disk, r));
            let off_q = table.page_offset(q);
            let off_p = table.page_offset(p);
            assert(off_q + PAGE_SIZE <= off_p) by (nonlinear_arith)
                requires
                    off_q == table.start_offset + q * PAGE_SIZE,
                    off_p == table.start_offset + p * PAGE_SIZE,
                    q + 1 <= p,
            ;
            assert(0 <= off_q) by (nonlinear_arith)
                requires
                    off_q == table.start_offset + q * PAGE_SIZE,
                    q >= 0,
                    table.start_offset >= 0,
            ;
            assert(row_on_disk(after, image, r) =~= row_on_disk(table, disk, r)) by {
                assert forall|i: int| 0 <= i < rs implies #[trigger] row_on_disk(
                    after,
                    image,
                    r,
                )[i] == row_on_disk(table, disk, r)[i] by {
                    lemma_write_keeps_before(disk, off_p, page2.used(), off_q + s * rs + i);
                }
            }
        }
    }
}

/// Writing the header leaves a table whose data lies after the header as
/// it was: what its pages in memory hold is still what the file holds.
pub proof fn lemma_flush_keeps_clean(table: TableView, disk: Seq<u8>, header: Seq<u8>)
    requires
        table.wf(),
        table.start_offset >= header.len(),
        clean(table, disk),
    ensures
        clean(table, write_range(disk, 0, header)),
{
    lemma_rows_per_page(table);
    let image = write_range(disk, 0, header);
    let rs = table.row_size();
    let rpp = table.rows_per_page();
    assert forall|r: int|
        0 <= r < table.total_rows && table.resident(r / table.rows_per_page()) implies #[trigger] table.row(
        image,
        r,
    ) == row_on_disk(table, image, r) by {
        lemma_row_numbers(table.total_rows, rpp, r);
        let q = r / rpp;
        let s = r % rpp;
        assert(table.row(disk, r) == row_on_disk(table, disk, r));
        assert(0 <= q * PAGE_SIZE) by (nonlinear_arith)
            requires
                q >= 0,
        ;
        assert(0 <= s * rs) by (nonlinear_arith)
            requires
                s >= 0,
                rs > 0,
        ;
        assert(row_on_disk(table, image, r) =~= row_on_disk(table, disk, r));
    }
}

/// The header in the backing file is the header of the catalog: the file
/// holds the count, and the name, schema, row count and data offset of
/// every table, as they are now.
pub open spec fn saved(db: DataBaseView) -> bool {
    header_image(db.disk) == db.header()
}

/// A flush leaves the header in the file as the header of the catalog.
pub proof fn lemma_flushed_is_saved(db: DataBaseView)
    requires
        db.wf(),
    ensures
        saved(db.flushed()),
        db.flushed().wf(),
{
    lemma_entries_prefix_len(db.tables);
    assert(db.header().len() == META_SIZE);
    assert(header_image(db.flushed().disk) =~= db.header());
}

/// Opening the backing file gives the catalog back, with no page in
/// memory, whenever the header in the file is the header of the catalog
/// and all names are stored whole.
pub proof fn lemma_reopen_saved(db: DataBaseView)
    requires
        db.wf(),
        saved(db),
        forall|i: int| 0 <= i < db.tables.len() ==> names_storable(#[trigger] db.tables[i]),
    ensures
        DataBaseView::opened(db.disk) == Ok::<DataBaseView, Seq<char>>(
            DataBaseView {
                num_tables: db.num_tables,
                tables: closed_all(db.tables),
                disk: db.disk,
            },
        ),
{
    lemma_entries_prefix_len(db.tables);
    crate::database::lemma_entries_len_lower(db.tables);
    assert(db.header()[0] == db.num_tables as u8);
    lemma_entries_read_back(db, db.disk, db.tables.len() as int);
    assert(db.tables.take(db.tables.len() as int) =~= db.tables);
}

/// The catalog that a successful insert leaves is the one that opening the
/// backing file gives: every table with its name, schema, data offset and
/// row count, the new row counted. Where the table was in step and its
/// pages in memory held what the file holds, the rows that a reader finds
/// after the file is opened again are the rows of before and the new row
/// after them, byte for byte.
pub proof fn lemma_insert_survives_reopen(
    before: ProcessorView,
    table_name: Seq<char>,
    pairs: Seq<(Seq<char>, Seq<char>)>,
    after: ProcessorView,
)
    requires
        before.wf(),
        find(before.database.tables, table_name) is Some,
        before.inserted(table_name, pairs, Ok(()), after),
        forall|i: int|
            0 <= i < before.database.tables.len() ==> names_storable(
                #[trigger] before.database.tables[i],
            ),
    ensures
        after.wf(),
        saved(after.database),
        DataBaseView::opened(after.database.disk) == Ok::<DataBaseView, Seq<char>>(
            DataBaseView {
                num_tables: after.database.num_tables,
                tables: closed_all(after.database.tables),
                disk: after.database.disk,
            },
        ),
        ({
            let i = find(before.database.tables, table_name)->0;
            let table = before.database.tables[i];
            let disk = before.database.disk;
            &&& 0 <= i < before.database.tables.len() == after.database.tables.len()
            &&& closed(after.database.tables[i]).total_rows == table.total_rows + 1
            &&& in_step(table, disk) && clean(table, disk) ==> exists|id: Seq<u8>|
                version_7(id) && closed(after.database.tables[i]).rows(after.database.disk)
                    == table.rows(disk).push(
                    #[trigger] row_bytes(table.columns, id, matched_values(table.columns, pairs)),
                )
        }),
{
    lemma_find(before.database.tables, table_name);
    let i = find(before.database.tables, table_name)->0;
    let table = before.database.tables[i];
    let disk = before.database.disk;
    assert(table.wf());
    lemma_rows_per_page(table);
    lemma_next_row(table.total_rows, table.rows_per_page());
    let id = choose|id: Seq<u8>|
        version_7(id) && after.database == #[trigger] before.stored(
            i,
            row_bytes(table.columns, id, matched_values(table.columns, pairs)),
        );
    let row = row_bytes(table.columns, id, matched_values(table.columns, pairs));
    assert forall|k: int| 0 <= k < table.columns.len() implies (#[trigger] table.columns[k]).size
        >= 0 by {
        if k >= 1 {
            assert(table.columns[k].is_field());
        }
    }
    lemma_row_bytes_len(table.columns, id, matched_values(table.columns, pairs));
    let stored = table.insert(disk, row).0;
    let written = table.insert(disk, row).1;
    let unflushed = DataBaseView {
        tables: before.database.tables.update(i, stored),
        disk: written,
        num_tables: before.database.num_tables,
    };
    assert(stored.wf()) by {
        lemma_page_wf(table, disk, table.total_rows / table.rows_per_page());
        lemma_stored_wf(table, disk, row);
    }
    crate::database::lemma_with_table_at_wf(before.database, i, stored);
    assert(unflushed == before.database.with_table_at(i, stored).with_disk(written));
    assert(unflushed.wf());
    assert forall|k: int| 0 <= k < unflushed.tables.len() implies names_storable(
        #[trigger] unflushed.tables[k],
    ) by {
        if k != i {
            assert(unflushed.tables[k] == before.database.tables[k]);
        } else {
            assert(names_storable(before.database.tables[i]));
        }
    }
    lemma_flushed_is_saved(unflushed);
    lemma_reopen(unflushed);
    if in_step(table, disk) && clean(table, disk) {
        lemma_insert_appends(table, disk, row);
        lemma_insert_keeps_clean(table, disk, row);
        lemma_entries_prefix_len(unflushed.tables);
        lemma_flush_keeps_clean(stored, written, unflushed.header());
        lemma_reopen_keeps_rows(stored, after.database.disk);
        lemma_header_write_keeps_rows(stored, written, unflushed.header());
    }
}

/// A table that takes a row is well formed after the insert.
pub proof fn lemma_stored_wf(table: TableView, disk: Seq<u8>, row: Seq<u8>)
    requires
        table.wf(),
        table.takes(disk, row),
    ensures
        table.insert(disk, row).0.wf(),
{
    lemma_rows_per_page(table);
    let rs = table.row_size();
    let rpp = table.rows_per_page();
    let total = table.total_rows;
    let p = total / rpp;
    let after = table.insert(disk, row).0;
    lemma_next_row(total, rpp);
    lemma_page_wf(table, disk, p);
    assert(p < crate::table::TABLE_MAX_PAGES) by (nonlinear_arith)
        requires
            p == total / rpp,
            total < crate::table::TABLE_MAX_PAGES * rpp,
            rpp > 0,
            total >= 0,
    ;
    assert(after.rows_per_page() == rpp);
    assert forall|q: int| 0 <= q < after.pages.len() && (#[trigger] after.pages[q]) is Some implies {
        &&& after.pages[q]->0.wf()
        &&& after.pages[q]->0.row_size == after.row_size()
        &&& (q * after.rows_per_page() >= after.total_rows ==> after.pages[q]->0.current_row == 0)
    } by {
        if q == p {
            assert(p * rpp <= total) by (nonlinear_arith)
                requires
                    total == p * rpp + total % rpp,
                    total % rpp >= 0,
            ;
        } else {
            assert(q < table.pages.len());
            assert(after.pages[q] == table.pages[q]);
        }
    }
}

/// A table that is created and then takes a row holds just that row after
/// the backing file is opened again: the catalog read from the file has
/// the table with its schema and a row count of one, and a reader finds
/// the row as it was built, byte for byte.
pub proof fn lemma_create_insert_reopen(
    start: ProcessorView,
    table_name: Seq<char>,
    columns: Seq<ColumnView>,
    pairs: Seq<(Seq<char>, Seq<char>)>,
    created: ProcessorView,
    after: ProcessorView,
)
    requires
        start.wf(),
        start.created(table_name, columns, Ok(()), created),
        created.inserted(table_name, pairs, Ok(()), after),
        forall|i: int|
            0 <= i < created.database.tables.len() ==> names_storable(
                #[trigger] created.database.tables[i],
            ),
    ensures
        DataBaseView::opened(after.database.disk) == Ok::<DataBaseView, Seq<char>>(
            DataBaseView {
                num_tables: after.database.num_tables,
                tables: closed_all(after.database.tables),
                disk: after.database.disk,
            },
        ),
        find(after.database.tables, table_name) is Some,
        ({
            let i = find(after.database.tables, table_name)->0;
            let reopened = closed(after.database.tables[i]);
            &&& 0 <= i < after.database.tables.len()
            &&& reopened.name == table_name
            &&& reopened.columns == with_id(columns)
            &&& reopened.total_rows == 1
            &&& exists|id: Seq<u8>|
                version_7(id) && reopened.rows(after.database.disk) == seq![
                    #[trigger] row_bytes(
                        with_id(columns),
                        id,
                        matched_values(with_id(columns), pairs),
                    ),
                ]
        }),
{
    let offset = start.database.next_offset();
    let fresh = new_table(table_name, columns, 0, offset);
    let added = start.database.with_table(fresh);
    crate::database::lemma_with_table_holds(start.database, fresh);
    assert(fresh.wf()) by {
        lemma_rows_per_page(fresh);
    }
    crate::database::lemma_with_table_wf(start.database, fresh);
    lemma_flushed_is_saved(added);
    assert(created.database == added.flushed());
    assert(created.wf());
    let i = find(created.database.tables, table_name)->0;
    let disk = created.database.disk;
    assert(created.database.tables[i] == fresh);
    lemma_new_table_settled(fresh);
    lemma_settled_ignores_disk(fresh, disk, disk);
    lemma_closed_is_clean(fresh, disk);
    lemma_insert_survives_reopen(created, table_name, pairs, after);
    lemma_find(created.database.tables, table_name);
    lemma_find(after.database.tables, table_name);
    assert(fresh.rows(disk) =~= Seq::<Seq<u8>>::empty());
    let id = choose|id: Seq<u8>|
        version_7(id) && closed(after.database.tables[i]).rows(after.database.disk)
            == fresh.rows(disk).push(
            #[trigger] row_bytes(fresh.columns, id, matched_values(fresh.columns, pairs)),
        );
    let row = row_bytes(fresh.columns, id, matched_values(fresh.columns, pairs));
    assert(fresh.rows(disk).push(row) =~= seq![row]);
    assert(after.database.tables[i].name == table_name);
    assert(find(after.database.tables, table_name) == Some(i)) by {
        match find(after.database.tables, table_name) {
            Some(j) => {
                if j != i {
                    assert(after.database.tables[j].name == created.database.tables[j].name);
                    assert(created.database.tables[i].name != created.database.tables[j].name);
                }
            },
            None => {},
        }
    }
}

/// Putting a table with the same entry in place of another leaves the
/// entries of the catalog as they are.
pub proof fn lemma_same_entry(tables: Seq<TableView>, i: int, table: TableView)
    requires
        0 <= i < tables.len(),
        table_entry(table) == table_entry(tables[i]),
    ensures
        entries(tables.update(i, table)) == entries(tables),
        entries_len(tables.update(i, table)) == entries_len(tables),
    decreases tables.len(),
{
    lemma_entries_prefix_len(tables);
    lemma_entries_prefix_len(tables.update(i, table));
    if i == tables.len() - 1 {
        assert(tables.update(i, table).drop_last() =~= tables.drop_last());
    } else {
        lemma_same_entry(tables.drop_last(), i, table);
        assert(tables.update(i, table).drop_last() =~= tables.drop_last().update(i, table));
    }
}

/// Every statement leaves the header in the backing file as the header of
/// the catalog, if it was so before; an insert or a table definition that
/// succeeds leaves it so in any case. So the file always holds the row
/// counts of the session, whichever statement was the last.
pub proof fn lemma_statement_keeps_saved(
    before: ProcessorView,
    statement: StatementView,
    result: Result<(), Seq<char>>,
    after: ProcessorView,
)
    requires
        before.wf(),
        before.executed(statement, result, after),
    ensures
        saved(before.database) ==> saved(after.database),
        result is Ok && (statement is Insert || statement is Create) ==> saved(after.database),
{
    let db = before.database;
    match statement {
        StatementView::Create { table_name, columns } => {
            if result is Ok {
                let fresh = new_table(table_name, columns, 0, db.next_offset());
                assert(fresh.wf()) by {
                    lemma_rows_per_page(fresh);
                }
                crate::database::lemma_with_table_wf(db, fresh);
                lemma_flushed_is_saved(db.with_table(fresh));
            }
        },
        StatementView::Insert { table_name, pairs } => {
            lemma_find(db.tables, table_name);
            if find(db.tables, table_name) is Some {
                let i = find(db.tables, table_name)->0;
                let table = db.tables[i];
                assert(table.wf());
                lemma_rows_per_page(table);
                lemma_next_row(table.total_rows, table.rows_per_page());
                let page = table.total_rows / table.rows_per_page();
                if result is Ok {
                    let id = choose|id: Seq<u8>|
                        version_7(id) && after.database == #[trigger] before.stored(
                            i,
                            row_bytes(table.columns, id, matched_values(table.columns, pairs)),
                        );
                    let row = row_bytes(table.columns, id, matched_values(table.columns, pairs));
                    assert forall|k: int| 0 <= k < table.columns.len() implies (
                    #[trigger] table.columns[k]).size >= 0 by {
                        if k >= 1 {
                            assert(table.columns[k].is_field());
                        }
                    }
                    lemma_row_bytes_len(table.columns, id, matched_values(table.columns, pairs));
                    lemma_stored_wf(table, db.disk, row);
                    let stored = table.insert(db.disk, row).0;
                    crate::database::lemma_with_table_at_wf(db, i, stored);
                    lemma_flushed_is_saved(
                        db.with_table_at(i, stored).with_disk(table.insert(db.disk, row).1),
                    );
                } else if table.total_rows < table.capacity() {
                    lemma_same_entry(db.tables, i, table.with_page(db.disk, page));
                }
            }
        },
        StatementView::Select { table_name, columns } => {
            lemma_find(db.tables, table_name);
            if find(db.tables, table_name) is Some {
                let i = find(db.tables, table_name)->0;
                let table = db.tables[i];
                assert(table.wf());
                lemma_rows_per_page(table);
                lemma_next_row(table.total_rows, table.rows_per_page());
                crate::table::lemma_pages_touched(table.total_rows, table.rows_per_page());
                crate::table::lemma_with_pages(table, db.disk, table.pages_in_use(), 0);
                lemma_same_entry(db.tables, i, table.with_pages(db.disk, table.pages_in_use()));
            }
        },
        StatementView::Update => {},
    }
}

} // verus!
