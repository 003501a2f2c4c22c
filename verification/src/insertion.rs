//! Rows that are inserted are read again, in insertion order.
use vstd::prelude::*;
use crate::ids::version_7;
use crate::disk::{byte_at, read_range, write_range, zeros};
use crate::database::{find, DataBaseView};
use crate::processor::ProcessorView;
use crate::rows::{lemma_row_bytes_len, matched_values, row_bytes};
use crate::table::{
    lemma_rows_fit, lemma_rows_per_page, row_cells, PageView, TableView, PAGE_SIZE,
    TABLE_MAX_PAGES,
};

verus! {

/// The next row goes where a reader will look for it: the page that takes
/// it has as many rows as the table counts on that page.
pub open spec fn in_step(table: TableView, disk: Seq<u8>) -> bool {
    table.page(disk, table.total_rows / table.rows_per_page()).current_row == table.total_rows
        % table.rows_per_page()
}

/// Division of row numbers by the rows of a page.
pub proof fn lemma_row_numbers(total: int, per_page: int, r: int)
    requires
        0 <= r < total,
        0 < per_page,
    ensures
        0 <= total % per_page < per_page,
        total == (total / per_page) * per_page + total % per_page,
        0 <= r / per_page <= total / per_page,
        0 <= r % per_page < per_page,
        r == (r / per_page) * per_page + r % per_page,
        r / per_page == total / per_page ==> r % per_page < total % per_page,
        total % per_page + 1 < per_page ==> (total + 1) / per_page == total / per_page && (total
            + 1) % per_page == total % per_page + 1,
        total % per_page + 1 == per_page ==> (total + 1) / per_page == total / per_page + 1 && (
        total + 1) % per_page == 0,
{
    vstd::arithmetic::div_mod::lemma_fundamental_div_mod(total, per_page);
    vstd::arithmetic::div_mod::lemma_fundamental_div_mod(r, per_page);
    vstd::arithmetic::div_mod::lemma_fundamental_div_mod(total + 1, per_page);
    vstd::arithmetic::div_mod::lemma_mod_bound(total, per_page);
    vstd::arithmetic::div_mod::lemma_mod_bound(r, per_page);
    vstd::arithmetic::div_mod::lemma_mod_bound(total + 1, per_page);
    vstd::arithmetic::div_mod::lemma_div_is_ordered(r, total, per_page);
    vstd::arithmetic::div_mod::lemma_div_pos_is_pos(r, per_page);
    let q = total / per_page;
    let m = total % per_page;
    assert(per_page * q == q * per_page) by (nonlinear_arith);
    assert(per_page * (r / per_page) == (r / per_page) * per_page) by (nonlinear_arith);
    if m + 1 < per_page {
        vstd::arithmetic::div_mod::lemma_fundamental_div_mod_converse(
            total + 1,
            per_page,
            q,
            m + 1,
        );
    } else {
        assert((q + 1) * per_page == q * per_page + per_page) by (nonlinear_arith);
        vstd::arithmetic::div_mod::lemma_fundamental_div_mod_converse(
            total + 1,
            per_page,
            q + 1,
            0,
        );
    }
}

/// The page and slot of the row after row number `total`.
pub proof fn lemma_next_row(total: int, per_page: int)
    requires
        0 <= total,
        0 < per_page,
    ensures
        0 <= total % per_page < per_page,
        0 <= total / per_page,
        total == (total / per_page) * per_page + total % per_page,
        total % per_page + 1 < per_page ==> (total + 1) / per_page == total / per_page && (total
            + 1) % per_page == total % per_page + 1,
        total % per_page + 1 == per_page ==> (total + 1) / per_page == total / per_page + 1 && (
        total + 1) % per_page == 0,
{
    lemma_row_numbers(total + 1, per_page, total);
    vstd::arithmetic::div_mod::lemma_fundamental_div_mod(total, per_page);
    vstd::arithmetic::div_mod::lemma_mod_bound(total, per_page);
    let q = total / per_page;
    let m = total % per_page;
    assert(per_page * q == q * per_page) by (nonlinear_arith);
    if m + 1 < per_page {
        vstd::arithmetic::div_mod::lemma_fundamental_div_mod_converse(
            total + 1,
            per_page,
            q,
            m + 1,
        );
    } else {
        assert((q + 1) * per_page == q * per_page + per_page) by (nonlinear_arith);
        vstd::arithmetic::div_mod::lemma_fundamental_div_mod_converse(
            total + 1,
            per_page,
            q + 1,
            0,
        );
    }
}

/// A page read from the backing file shows the bytes of the file from the
/// page's offset on, and zeros past the end of the file.
pub proof fn lemma_page_from_disk(row_size: int, disk: Seq<u8>, offset: int)
    requires
        0 <= offset,
    ensures
        PageView::empty(row_size).filled(read_range(disk, offset, PAGE_SIZE as int)).data
            == Seq::new(PAGE_SIZE as nat, |i: int| byte_at(disk, offset + i)),
{
    assert(PageView::empty(row_size).filled(read_range(disk, offset, PAGE_SIZE as int)).data
        =~= Seq::new(PAGE_SIZE as nat, |i: int| byte_at(disk, offset + i)));
}

/// A write leaves the bytes before it as a reader sees them.
pub proof fn lemma_write_keeps_before(disk: Seq<u8>, offset: int, bytes: Seq<u8>, i: int)
    requires
        0 <= i < offset,
    ensures
        byte_at(write_range(disk, offset, bytes), i) == byte_at(disk, i),
{
}

/// A write at the head of the file leaves the bytes after it as a reader
/// sees them.
pub proof fn lemma_write_keeps_after(disk: Seq<u8>, bytes: Seq<u8>, i: int)
    requires
        bytes.len() <= i,
    ensures
        byte_at(write_range(disk, 0, bytes), i) == byte_at(disk, i),
{
}

/// Writing the catalog's header changes no row of a table: the rows lie
/// after the header.
pub proof fn lemma_header_write_keeps_rows(table: TableView, disk: Seq<u8>, header: Seq<u8>)
    requires
        table.wf(),
        header.len() <= table.start_offset,
    ensures
        table.rows(write_range(disk, 0, header)) == table.rows(disk),
{
    lemma_rows_per_page(table);
    let image = write_range(disk, 0, header);
    let rs = table.row_size();
    let rpp = table.rows_per_page();
    assert forall|r: int| 0 <= r < table.total_rows implies table.row(image, r) == table.row(
        disk,
        r,
    ) by {
        lemma_row_numbers(table.total_rows, rpp, r);
        let q = r / rpp;
        if !table.resident(q) {
            assert(q * rpp <= r) by (nonlinear_arith)
                requires
                    r == q * rpp + r % rpp,
                    r % rpp >= 0,
            ;
            let off = table.page_offset(q);
            assert(off >= table.start_offset) by (nonlinear_arith)
                requires
                    off == table.start_offset + q * PAGE_SIZE,
                    q >= 0,
            ;
            lemma_page_from_disk(rs, disk, off);
            lemma_page_from_disk(rs, image, off);
            let seen = table.fetched_page(disk, q).data;
            let seen2 = table.fetched_page(image, q).data;
            assert(seen2 =~= seen) by {
                assert forall|i: int| 0 <= i < PAGE_SIZE implies seen2[i] == seen[i] by {
                    lemma_write_keeps_after(disk, header, off + i);
                }
            }
        }
    }
    assert(table.rows(image) =~= table.rows(disk));
}

/// Every page of a well-formed table, in memory or as the backing file
/// gives it, is a page of the table's row width.
pub proof fn lemma_page_wf(table: TableView, disk: Seq<u8>, p: int)
    requires
        table.wf(),
        0 <= p,
    ensures
        table.page(disk, p).wf(),
        table.page(disk, p).row_size == table.row_size(),
        table.page(disk, p).capacity() == table.rows_per_page(),
{
    lemma_rows_per_page(table);
    if !table.resident(p) {
        let rs = table.row_size();
        let n = read_range(disk, table.page_offset(p), PAGE_SIZE as int).len() as int;
        assert(0 <= n / rs <= PAGE_SIZE as int / rs) by (nonlinear_arith)
            requires
                0 <= n <= PAGE_SIZE as int,
                0 < rs,
        ;
    }
}

/// A row that lies on a page in memory reads the same whatever the backing
/// file holds.
pub proof fn lemma_resident_row_ignores_disk(
    table: TableView,
    disk: Seq<u8>,
    other: Seq<u8>,
    r: int,
)
    requires
        table.resident(r / table.rows_per_page()),
    ensures
        table.row(disk, r) == table.row(other, r),
{
}

/// Inserting a row into a table that is in step appends it: a reader then
/// finds the rows that were there, unchanged and in the same order, and the
/// new row after them. The table stays well formed, the page that took the
/// row is in memory, and the table is in step again.
pub proof fn lemma_insert_appends(table: TableView, disk: Seq<u8>, row: Seq<u8>)
    requires
        table.wf(),
        row.len() == table.row_size(),
        table.total_rows < table.capacity(),
        in_step(table, disk),
    ensures
        table.takes(disk, row),
        table.insert(disk, row).0.wf(),
        table.insert(disk, row).0.rows(table.insert(disk, row).1) == table.rows(disk).push(row),
        table.insert(disk, row).0.resident(table.total_rows / table.rows_per_page()),
        in_step(table.insert(disk, row).0, table.insert(disk, row).1),
{
    lemma_rows_per_page(table);
    let rs = table.row_size();
    let rpp = table.rows_per_page();
    let total = table.total_rows;
    let p = total / rpp;
    let slot = total % rpp;
    let page = table.page(disk, p);
    let after = table.insert(disk, row).0;
    let image = table.insert(disk, row).1;
    let page2 = page.with_row(row);
    lemma_next_row(total, rpp);
    assert(p < TABLE_MAX_PAGES) by (nonlinear_arith)
        requires
            p == total / rpp,
            total < TABLE_MAX_PAGES * rpp,
            rpp > 0,
            total >= 0,
    ;
    lemma_page_wf(table, disk, p);
    lemma_rows_fit(slot, rs);
    lemma_rows_fit(slot + 1, rs);
    assert((slot + 1) * rs == slot * rs + rs) by (nonlinear_arith);
    assert(after.rows_per_page() == rpp);
    assert(after.pages[p] == Some(page2));
    assert(page2.wf());
    assert(after.wf()) by {
        assert forall|q: int| 0 <= q < after.pages.len() && (#[trigger] after.pages[q]) is Some implies {
            &&& after.pages[q]->0.wf()
            &&& after.pages[q]->0.row_size == after.row_size()
            &&& (q * after.rows_per_page() >= after.total_rows ==> after.pages[q]->0.current_row
                == 0)
        } by {
            if q == p {
                assert(p * rpp <= total) by (nonlinear_arith)
                    requires
                        total == p * rpp + slot,
                        slot >= 0,
                ;
            } else {
                assert(q < table.pages.len());
                assert(after.pages[q] == table.pages[q]);
            }
        }
    }
    let old_rows = table.rows(disk);
    let new_rows = after.rows(image);
    assert(new_rows.len() == old_rows.len() + 1);
    assert forall|r: int| 0 <= r < total implies new_rows[r] == old_rows[r] by {
        lemma_row_numbers(total, rpp, r);
        let q = r / rpp;
        let s = r % rpp;
        if q == p {
            lemma_rows_fit(s, rs);
            lemma_rows_fit(s + 1, rs);
            assert((s + 1) * rs == s * rs + rs) by (nonlinear_arith);
            assert((s + 1) * rs <= slot * rs) by (nonlinear_arith)
                requires
                    s + 1 <= slot,
                    rs > 0,
            ;
            assert(page2.row(s) =~= page.row(s));
        } else {
            if table.resident(q) {
                assert(after.pages[q] == table.pages[q]);
            } else {
                assert(!after.resident(q));
                assert(q * rpp <= r) by (nonlinear_arith)
                    requires
                        r == q * rpp + s,
                        s >= 0,
                ;
                let off_q = table.page_offset(q);
                let off_p = table.page_offset(p);
                assert(off_q + PAGE_SIZE <= off_p) by (nonlinear_arith)
                    requires
                        off_q == table.start_offset + q * PAGE_SIZE,
                        off_p == table.start_offset + p * PAGE_SIZE,
                        q + 1 <= p,
                ;
                assert(0 <= off_q) by (nonlinear_arith)
                    requires
                        off_q == table.start_offset + q * PAGE_SIZE,
                        q >= 0,
                        table.start_offset >= 0,
                ;
                lemma_page_from_disk(rs, disk, off_q);
                lemma_page_from_disk(rs, image, off_q);
                let seen = table.fetched_page(disk, q).data;
                let seen2 = after.fetched_page(image, q).data;
                assert(seen2 =~= seen) by {
                    assert forall|i: int| 0 <= i < PAGE_SIZE implies seen2[i] == seen[i] by {
                        lemma_write_keeps_before(disk, off_p, page2.used(), off_q + i);
                    }
                }
                lemma_rows_fit(s, rs);
                lemma_rows_fit(s + 1, rs);
            }
        }
    }
    assert(new_rows[total] =~= row) by {
        assert(page2.row(slot) =~= row);
    }
    assert(new_rows =~= old_rows.push(row));
    assert(in_step(after, image)) by {
        if slot + 1 < rpp {
        } else {
            let next = p + 1;
            assert(next * rpp == total + 1) by (nonlinear_arith)
                requires
                    total == p * rpp + slot,
                    slot + 1 == rpp,
                    next == p + 1,
            ;
            if after.resident(next) {
                assert(next < table.pages.len());
                assert(after.pages[next] == table.pages[next]);
                assert(table.pages[next] is Some);
                assert(next * table.rows_per_page() >= table.total_rows);
            }
        }
    }
}

/// A table whose rows end the backing file is in step when the file is
/// opened: the page that takes the next row reads from the file just the
/// rows that the table counts on it.
pub proof fn lemma_table_at_end_of_file_in_step(table: TableView, disk: Seq<u8>)
    requires
        table.wf(),
        !table.resident(table.total_rows / table.rows_per_page()),
        disk.len() == table.page_offset(table.total_rows / table.rows_per_page()) + (
        table.total_rows % table.rows_per_page()) * table.row_size(),
    ensures
        in_step(table, disk),
{
    lemma_rows_per_page(table);
    let rs = table.row_size();
    let rpp = table.rows_per_page();
    let total = table.total_rows;
    let p = total / rpp;
    let slot = total % rpp;
    lemma_next_row(total, rpp);
    lemma_rows_fit(slot, rs);
    let offset = table.page_offset(p);
    assert(0 <= offset) by (nonlinear_arith)
        requires
            offset == table.start_offset + p * PAGE_SIZE,
            p >= 0,
            table.start_offset >= 0,
    ;
    if slot > 0 {
        assert(total > p * rpp);
        assert(slot * rs > 0) by (nonlinear_arith)
            requires
                slot > 0,
                rs > 0,
        ;
        assert(read_range(disk, offset, PAGE_SIZE as int).len() == slot * rs);
        assert((slot * rs) / rs == slot) by (nonlinear_arith)
            requires
                rs > 0,
                slot >= 0,
        ;
    }
}

/// Every page that holds rows is in memory, and the page that takes the
/// next row has as many rows as the table counts on it. A table that was
/// created in this session, and filled by inserts only, is like this.
pub open spec fn settled(table: TableView) -> bool {
    &&& forall|p: int|
        0 <= p && p * table.rows_per_page() < table.total_rows ==> #[trigger] table.resident(p)
    &&& table.total_rows % table.rows_per_page() > 0 ==> table.pages[table.total_rows
        / table.rows_per_page()]->0.current_row == table.total_rows % table.rows_per_page()
}

/// A table without rows and without pages in memory is settled.
pub proof fn lemma_new_table_settled(table: TableView)
    requires
        table.wf(),
        table.total_rows == 0,
        table.pages.len() == 0,
    ensures
        settled(table),
{
    lemma_rows_per_page(table);
    assert forall|p: int|
        0 <= p && p * table.rows_per_page() < table.total_rows implies #[trigger] table.resident(
        p,
    ) by {
        assert(0 <= p * table.rows_per_page()) by (nonlinear_arith)
            requires
                0 <= p,
                table.rows_per_page() >= 1,
        ;
    }
}

/// A settled table is in step with any backing file, and its rows do not
/// depend on what the file holds: whatever is written to the file in the
/// meantime, a reader finds the rows as they were inserted.
pub proof fn lemma_settled_ignores_disk(table: TableView, disk: Seq<u8>, other: Seq<u8>)
    requires
        table.wf(),
        settled(table),
    ensures
        in_step(table, disk),
        table.rows(disk) == table.rows(other),
{
    lemma_rows_per_page(table);
    let rpp = table.rows_per_page();
    let total = table.total_rows;
    let p = total / rpp;
    lemma_next_row(total, rpp);
    if total % rpp > 0 {
        assert(p * rpp < total);
        assert(table.resident(p));
    } else {
        assert(p * rpp >= total);
    }
    assert forall|r: int| 0 <= r < total implies table.row(disk, r) == table.row(other, r) by {
        lemma_row_numbers(total, rpp, r);
        let q = r / rpp;
        assert(q * rpp < total);
        assert(table.resident(q));
    }
    assert(table.rows(disk) =~= table.rows(other));
}

/// An insert into a settled table leaves it settled.
pub proof fn lemma_insert_keeps_settled(table: TableView, disk: Seq<u8>, row: Seq<u8>)
    requires
        table.wf(),
        row.len() == table.row_size(),
        table.total_rows < table.capacity(),
        settled(table),
    ensures
        settled(table.insert(disk, row).0),
{
    lemma_rows_per_page(table);
    lemma_settled_ignores_disk(table, disk, disk);
    lemma_insert_appends(table, disk, row);
    let rpp = table.rows_per_page();
    let total = table.total_rows;
    let p = total / rpp;
    let after = table.insert(disk, row).0;
    lemma_next_row(total, rpp);
    assert(after.rows_per_page() == rpp);
    assert forall|q: int|
        0 <= q && q * after.rows_per_page() < after.total_rows implies #[trigger] after.resident(
        q,
    ) by {
        if q != p {
            if q * rpp < total {
                assert(table.resident(q));
                assert(after.pages[q] == table.pages[q]);
            } else {
                assert(q * rpp == total);
                assert(q == p) by (nonlinear_arith)
                    requires
                        q * rpp == total,
                        total == p * rpp + total % rpp,
                        0 <= total % rpp < rpp,
                        rpp > 0,
                ;
            }
        }
    }
    if (total + 1) % rpp > 0 {
        assert((total + 1) / rpp == p);
        assert(in_step(after, table.insert(disk, row).1));
        assert(after.resident(p));
    }
}

/// Bringing a page into memory leaves a settled table settled.
pub proof fn lemma_load_keeps_settled(table: TableView, disk: Seq<u8>, p: int)
    requires
        table.wf(),
        settled(table),
        0 <= p,
    ensures
        settled(table.with_page(disk, p)),
{
    lemma_rows_per_page(table);
    let rpp = table.rows_per_page();
    let total = table.total_rows;
    let after = table.with_page(disk, p);
    lemma_next_row(total, rpp);
    assert forall|q: int|
        0 <= q && q * after.rows_per_page() < after.total_rows implies #[trigger] after.resident(
        q,
    ) by {
        assert(table.resident(q));
        if q != p {
            assert(after.pages[q] == table.pages[q]);
        }
    }
    if total % rpp > 0 {
        let target = total / rpp;
        assert(target * rpp < total);
        assert(table.resident(target));
        assert(after.pages[target] == table.pages[target]);
    }
}

/// A full table has its next row on a page past the last one that a
/// table may hold: no insert is owed to it.
pub proof fn lemma_full_table_has_no_page_left(table: TableView, disk: Seq<u8>, row: Seq<u8>)
    requires
        table.wf(),
        table.total_rows == table.capacity(),
    ensures
        table.total_rows / table.rows_per_page() == TABLE_MAX_PAGES,
        !table.takes(disk, row),
{
    lemma_rows_per_page(table);
    let rpp = table.rows_per_page();
    vstd::arithmetic::div_mod::lemma_fundamental_div_mod_converse(
        table.total_rows,
        rpp,
        TABLE_MAX_PAGES as int,
        0,
    );
}

/// An insert that succeeds on a table in step is seen by the next query
/// on that table: the query shows the rows it showed before, in the same
/// order, and after them the cells of the new row.
pub proof fn lemma_insert_then_select(
    before: ProcessorView,
    table_name: Seq<char>,
    pairs: Seq<(Seq<char>, Seq<char>)>,
    after: ProcessorView,
    requested: Seq<Seq<char>>,
)
    requires
        before.wf(),
        find(before.database.tables, table_name) is Some,
        in_step(
            before.database.tables[find(before.database.tables, table_name)->0],
            before.database.disk,
        ),
        before.inserted(table_name, pairs, Ok(()), after),
    ensures
        ({
            let i = find(before.database.tables, table_name)->0;
            let table = before.database.tables[i];
            exists|id: Seq<u8>|
                version_7(id) && after.database.tables[i].grid(after.database.disk, requested)
                    == table.grid(before.database.disk, requested).push(
                    row_cells(
                        table.columns,
                        #[trigger] row_bytes(
                            table.columns,
                            id,
                            matched_values(table.columns, pairs),
                        ),
                        requested,
                    ),
                )
        }),
{
    crate::database::lemma_find(before.database.tables, table_name);
    let i = find(before.database.tables, table_name)->0;
    let table = before.database.tables[i];
    let disk = before.database.disk;
    assert(table.wf());
    lemma_rows_per_page(table);
    lemma_next_row(table.total_rows, table.rows_per_page());
    let id = choose|id: Seq<u8>|
        version_7(id) && after.database == #[trigger] before.stored(
            i,
            row_bytes(table.columns, id, matched_values(table.columns, pairs)),
        );
    let row = row_bytes(table.columns, id, matched_values(table.columns, pairs));
    assert forall|k: int| 0 <= k < table.columns.len() implies (#[trigger] table.columns[k]).size
        >= 0 by {
        if k >= 1 {
            assert(table.columns[k].is_field());
        }
    }
    lemma_row_bytes_len(table.columns, id, matched_values(table.columns, pairs));
    lemma_insert_appends(table, disk, row);
    let stored = table.insert(disk, row).0;
    let written = table.insert(disk, row).1;
    let image = after.database.disk;
    assert(after.database.tables[i] == stored);
    let unflushed = DataBaseView {
        tables: before.database.tables.update(i, stored),
        disk: written,
        num_tables: before.database.num_tables,
    };
    crate::database::lemma_entries_prefix_len(unflushed.tables);
    crate::database::lemma_with_table_at_wf(before.database, i, stored);
    assert(unflushed.header().len() == crate::table::META_SIZE);
    assert(image == write_range(written, 0, unflushed.header()));
    lemma_header_write_keeps_rows(stored, written, unflushed.header());
    assert(stored.rows(image) == table.rows(disk).push(row));
    assert forall|r: int| 0 <= r < table.total_rows implies stored.row(image, r) == table.row(
        disk,
        r,
    ) by {
        assert(stored.rows(image)[r] == table.rows(disk).push(row)[r]);
    }
    assert(stored.row(image, table.total_rows) == row) by {
        assert(stored.rows(image)[table.total_rows] == table.rows(disk).push(row)[table.total_rows]);
    }
    assert(stored.grid(image, requested) =~= table.grid(disk, requested).push(
        row_cells(table.columns, row, requested),
    ));
}

} // verus!
