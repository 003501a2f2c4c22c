//! The catalog: the tables by name, their count, and the backing file.
use vstd::prelude::*;
use vstd::bytes::{lemma_auto_spec_u16_to_from_le_bytes, lemma_auto_spec_u64_to_from_le_bytes};
use crate::disk::{byte_at, write_range, zeros, Disk};
use crate::meta::{
    entry_len, entry_len_of, lemma_column_entries_len, read_table, stored_table, table_entry,
    COLUMN_ENTRY_SIZE, TABLE_ENTRY_SIZE,
};
use crate::render::{grid_view, table_rendering, title_line};
use crate::table::{
    acceptable, column_views, lemma_rows_per_page, row_views, with_id, Column, ColumnView, PageView,
    Table, TableView, META_SIZE, PAGE_SIZE,
};
use crate::text::text_views;

verus! {

/// The state of a [`DataBase`].
pub ghost struct DataBaseView {
    pub num_tables: int,
    pub tables: Seq<TableView>,
    pub disk: Seq<u8>,
}

/// The views of a run of tables.
pub open spec fn table_views(tables: Seq<Table>) -> Seq<TableView> {
    tables.map_values(|t: Table| t@)
}

/// The index of the first table named `name`, if there is one.
pub open spec fn find(tables: Seq<TableView>, name: Seq<char>) -> Option<int>
    decreases tables.len(),
{
    if tables.len() == 0 {
        None
    } else {
        match find(tables.drop_last(), name) {
            Some(i) => Some(i),
            None => if tables.last().name == name {
                Some(tables.len() - 1)
            } else {
                None
            },
        }
    }
}

/// The number of pages set aside for a table of `total_rows` rows when
/// the data region of the next table is placed.
pub open spec fn pages_of(total_rows: int) -> int {
    (total_rows + PAGE_SIZE - 1) / (PAGE_SIZE as int)
}

/// The bytes set aside for the data of `tables`.
pub open spec fn occupied(tables: Seq<TableView>) -> int
    decreases tables.len(),
{
    if tables.len() == 0 {
        0
    } else {
        occupied(tables.drop_last()) + pages_of(tables.last().total_rows) * PAGE_SIZE
    }
}

/// The catalog entries of `tables`, one after the other.
pub open spec fn entries(tables: Seq<TableView>) -> Seq<u8>
    decreases tables.len(),
{
    if tables.len() == 0 {
        Seq::<u8>::empty()
    } else {
        entries(tables.drop_last()) + table_entry(tables.last())
    }
}

/// The length of the catalog entries of `tables`.
pub open spec fn entries_len(tables: Seq<TableView>) -> int
    decreases tables.len(),
{
    if tables.len() == 0 {
        0
    } else {
        entries_len(tables.drop_last()) + entry_len(tables.last())
    }
}

/// The length of the catalog entries of the tables not named `name`.
pub open spec fn others_len(tables: Seq<TableView>, name: Seq<char>) -> int
    decreases tables.len(),
{
    if tables.len() == 0 {
        0
    } else if tables.last().name == name {
        others_len(tables.drop_last(), name)
    } else {
        others_len(tables.drop_last(), name) + entry_len(tables.last())
    }
}

/// The table that [`Table::new`] makes.
pub open spec fn new_table(
    name: Seq<char>,
    columns: Seq<ColumnView>,
    total_rows: int,
    start_offset: int,
) -> TableView {
    TableView {
        name,
        columns: with_id(columns),
        total_rows,
        start_offset,
        pages: Seq::<Option<PageView>>::empty(),
    }
}

/// The first 4096 bytes of the backing file as a reader with a zeroed
/// buffer sees them.
pub open spec fn header_image(disk: Seq<u8>) -> Seq<u8> {
    Seq::new(META_SIZE as nat, |i: int| byte_at(disk, i))
}

impl DataBaseView {
    /// The count is the number of tables held; every table is well formed;
    /// no two tables have the same name; the header has room for the
    /// entries of all tables.
    pub open spec fn wf(self) -> bool {
        &&& self.num_tables == self.tables.len()
        &&& self.meta_len() <= META_SIZE
        &&& forall|i: int| 0 <= i < self.tables.len() ==> (#[trigger] self.tables[i]).wf()
        &&& forall|i: int, j: int|
            0 <= i < j < self.tables.len() ==> (#[trigger] self.tables[i]).name != (
            #[trigger] self.tables[j]).name
    }

    /// A catalog over `disk` with no table.
    pub open spec fn empty(disk: Seq<u8>) -> DataBaseView {
        DataBaseView { num_tables: 0, tables: Seq::<TableView>::empty(), disk }
    }

    /// The catalog after `table` is put in: it takes the place of the table
    /// of the same name, or is added as a new one, which the count then
    /// counts.
    pub open spec fn with_table(self, table: TableView) -> DataBaseView {
        match find(self.tables, table.name) {
            Some(i) => DataBaseView { tables: self.tables.update(i, table), ..self },
            None => DataBaseView {
                num_tables: self.num_tables + 1,
                tables: self.tables.push(table),
                disk: self.disk,
            },
        }
    }

    /// Where the data of the next table goes when no offset is given: after
    /// the header and the pages set aside for the tables held.
    pub open spec fn next_offset(self) -> int {
        META_SIZE as int + occupied(self.tables)
    }

    /// The length of the catalog as stored: the count, then the entries.
    pub open spec fn meta_len(self) -> int {
        1 + entries_len(self.tables)
    }

    /// The header as a flush writes it: the count, the entries, and zeros
    /// up to 4096 bytes.
    pub open spec fn header(self) -> Seq<u8> {
        seq![self.num_tables as u8] + entries(self.tables) + zeros(
            (META_SIZE as int - self.meta_len()) as nat,
        )
    }

    /// The catalog after its header is written to the backing file.
    pub open spec fn flushed(self) -> DataBaseView {
        DataBaseView { disk: write_range(self.disk, 0, self.header()), ..self }
    }

    /// The catalog over another image of the backing file.
    pub open spec fn with_disk(self, disk: Seq<u8>) -> DataBaseView {
        DataBaseView { disk, ..self }
    }

    /// The catalog with `table` in place of the table at index `i`.
    pub open spec fn with_table_at(self, i: int, table: TableView) -> DataBaseView {
        DataBaseView { tables: self.tables.update(i, table), ..self }
    }

    /// Why a table cannot be added, if it cannot: the arguments make no
    /// table, or the header has no room for its entry.
    pub open spec fn add_error(
        self,
        name: Seq<char>,
        columns: Seq<ColumnView>,
        total_rows: int,
        start_offset: int,
        flush: bool,
    ) -> Option<Seq<char>> {
        if !acceptable(columns, total_rows, start_offset) {
            Some("Invalid table definition"@)
        } else if self.with_table(
            new_table(name, columns, total_rows, start_offset),
        ).meta_len() > META_SIZE {
            Some("Metadata full"@)
        } else {
            None
        }
    }

    /// The catalog after a table is added.
    pub open spec fn added(
        self,
        name: Seq<char>,
        columns: Seq<ColumnView>,
        total_rows: int,
        start_offset: int,
        flush: bool,
    ) -> DataBaseView {
        if flush {
            self.with_table(new_table(name, columns, total_rows, start_offset)).flushed()
        } else {
            self.with_table(new_table(name, columns, total_rows, start_offset))
        }
    }

    /// The catalog made of the first `count` entries of `header`, with the
    /// offset of the entry after them; or the error of the first entry that
    /// cannot be read or gives no table.
    pub open spec fn loaded(header: Seq<u8>, disk: Seq<u8>, count: int) -> Result<
        (DataBaseView, int),
        Seq<char>,
    >
        decreases count,
    {
        if count <= 0 {
            Ok((DataBaseView::empty(disk), 1))
        } else {
            match DataBaseView::loaded(header, disk, count - 1) {
                Err(e) => Err(e),
                Ok((db, offset)) => match stored_table(header, offset) {
                    Err(e) => Err(e),
                    Ok(t) => match db.add_error(
                        t.name,
                        t.columns,
                        t.total_rows,
                        t.start_offset,
                        false,
                    ) {
                        Some(e) => Err(e),
                        None => Ok(
                            (
                                db.added(t.name, t.columns, t.total_rows, t.start_offset, false),
                                offset + entry_len_of(t.columns.len() as int),
                            ),
                        ),
                    },
                },
            }
        }
    }

    /// The catalog that opening a backing file gives: as many entries as
    /// the first byte of the header says, read in order.
    pub open spec fn opened(disk: Seq<u8>) -> Result<DataBaseView, Seq<char>> {
        match DataBaseView::loaded(header_image(disk), disk, header_image(disk)[0] as int) {
            Err(e) => Err(e),
            Ok((db, _)) => Ok(db),
        }
    }
}

/// What `find` returns: the first index with the name, or nothing where no
/// table has it.
pub proof fn lemma_find(tables: Seq<TableView>, name: Seq<char>)
    ensures
        match find(tables, name) {
            Some(i) => 0 <= i < tables.len() && tables[i].name == name && forall|j: int|
                0 <= j < i ==> (#[trigger] tables[j]).name != name,
            None => forall|j: int| 0 <= j < tables.len() ==> (#[trigger] tables[j]).name != name,
        },
    decreases tables.len(),
{
    if tables.len() > 0 {
        lemma_find(tables.drop_last(), name);
        match find(tables.drop_last(), name) {
            Some(i) => {
                assert(tables.drop_last()[i] == tables[i]);
                assert forall|j: int| 0 <= j < i implies (#[trigger] tables[j]).name != name by {
                    assert(tables.drop_last()[j] == tables[j]);
                }
            },
            None => {
                assert forall|j: int| 0 <= j < tables.len() - 1 implies (
                #[trigger] tables[j]).name != name by {
                    assert(tables.drop_last()[j] == tables[j]);
                }
            },
        }
    }
}

/// A table's entry is as long as its name, count, row count and offset,
/// 43 bytes in all, and 33 bytes for each column.
pub proof fn lemma_table_entry_len(table: TableView)
    ensures
        table_entry(table).len() == entry_len(table),
{
    lemma_auto_spec_u16_to_from_le_bytes();
    lemma_auto_spec_u64_to_from_le_bytes();
    lemma_column_entries_len(table.columns);
}

/// The entries are as long as the sum of their lengths.
pub proof fn lemma_entries_prefix_len(tables: Seq<TableView>)
    ensures
        entries(tables).len() == entries_len(tables),
        0 <= entries_len(tables),
    decreases tables.len(),
{
    if tables.len() > 0 {
        lemma_entries_prefix_len(tables.drop_last());
        lemma_table_entry_len(tables.last());
    }
}

/// Replacing a table changes the length of the entries by the difference
/// of the two entries.
pub proof fn lemma_entries_len_update(tables: Seq<TableView>, i: int, table: TableView)
    requires
        0 <= i < tables.len(),
    ensures
        entries_len(tables.update(i, table)) == entries_len(tables) - entry_len(tables[i])
            + entry_len(table),
    decreases tables.len(),
{
    if i == tables.len() - 1 {
        assert(tables.update(i, table).drop_last() =~= tables.drop_last());
    } else {
        lemma_entries_len_update(tables.drop_last(), i, table);
        assert(tables.update(i, table).drop_last() =~= tables.drop_last().update(i, table));
    }
}

/// Where no two tables share a name, the entries of the others are the
/// entries of all without that of the table named.
pub proof fn lemma_others_len(tables: Seq<TableView>, name: Seq<char>)
    requires
        forall|i: int, j: int|
            0 <= i < j < tables.len() ==> (#[trigger] tables[i]).name != (
            #[trigger] tables[j]).name,
    ensures
        others_len(tables, name) == entries_len(tables) - match find(tables, name) {
            Some(i) => entry_len(tables[i]),
            None => 0,
        },
    decreases tables.len(),
{
    if tables.len() > 0 {
        let front = tables.drop_last();
        assert forall|i: int, j: int| 0 <= i < j < front.len() implies (#[trigger] front[i]).name
            != (#[trigger] front[j]).name by {
            assert(front[i] == tables[i]);
            assert(front[j] == tables[j]);
        }
        lemma_others_len(front, name);
        lemma_find(front, name);
        lemma_find(tables, name);
        match find(front, name) {
            Some(i) => {
                assert(front[i] == tables[i]);
                assert(tables[i].name != tables[tables.len() - 1].name);
            },
            None => {},
        }
    }
}

/// The length of the catalog after a table is put in.
pub proof fn lemma_with_table_len(db: DataBaseView, table: TableView)
    requires
        db.wf(),
    ensures
        db.with_table(table).meta_len() == 1 + others_len(db.tables, table.name) + entry_len(
            table,
        ),
{
    lemma_others_len(db.tables, table.name);
    lemma_find(db.tables, table.name);
    match find(db.tables, table.name) {
        Some(i) => {
            lemma_entries_len_update(db.tables, i, table);
        },
        None => {
            assert(db.tables.push(table).drop_last() =~= db.tables);
        },
    }
}

/// The entries of `n` tables take at least `43 n` bytes, so a header has
/// room for fewer than 96 tables.
pub proof fn lemma_entries_len_lower(tables: Seq<TableView>)
    ensures
        entries_len(tables) >= TABLE_ENTRY_SIZE * tables.len(),
    decreases tables.len(),
{
    if tables.len() > 0 {
        lemma_entries_len_lower(tables.drop_last());
    }
}

/// Putting a well-formed table into a well-formed catalog whose header has
/// room for it gives a well-formed catalog.
pub proof fn lemma_with_table_wf(db: DataBaseView, table: TableView)
    requires
        db.wf(),
        table.wf(),
        db.with_table(table).meta_len() <= META_SIZE,
    ensures
        db.with_table(table).wf(),
{
    lemma_find(db.tables, table.name);
    let after = db.with_table(table);
    match find(db.tables, table.name) {
        Some(i) => {
            assert forall|a: int, b: int| 0 <= a < b < after.tables.len() implies (
            #[trigger] after.tables[a]).name != (#[trigger] after.tables[b]).name by {
                assert(after.tables[a].name == db.tables[a].name);
                assert(after.tables[b].name == db.tables[b].name);
            }
        },
        None => {
            assert forall|a: int, b: int| 0 <= a < b < after.tables.len() implies (
            #[trigger] after.tables[a]).name != (#[trigger] after.tables[b]).name by {
                if b < db.tables.len() {
                    assert(after.tables[a] == db.tables[a]);
                    assert(after.tables[b] == db.tables[b]);
                } else {
                    assert(after.tables[a] == db.tables[a]);
                }
            }
        },
    }
}

/// The catalog: the tables by name, their count, and the backing file,
/// which only the catalog holds.
#[derive(Debug)]
pub struct DataBase {
    tables: Vec<Table>,
    num_tables: u8,
    disk: Disk,
}

impl View for DataBase {
    type V = DataBaseView;

    closed spec fn view(&self) -> DataBaseView {
        DataBaseView {
            num_tables: self.num_tables as int,
            tables: table_views(self.tables@),
            disk: self.disk@,
        }
    }
}

impl DataBase {
    /// The tables held, in the order in which their names first came.
    pub fn tables(&self) -> (tables: &Vec<Table>)
        ensures
            table_views(tables@) == self@.tables,
    {
        &self.tables
    }

    /// The count of tables.
    pub fn num_tables(&self) -> (n: u8)
        ensures
            n == self@.num_tables,
    {
        self.num_tables
    }

    /// The backing file.
    pub fn disk(&self) -> (disk: &Disk)
        ensures
            disk@ == self@.disk,
    {
        &self.disk
    }

    /// Gives up the catalog for its backing file.
    pub fn into_disk(self) -> (disk: Disk)
        ensures
            disk@ == self@.disk,
    {
        self.disk
    }

    /// The index of the table named `name`, if there is one.
    pub fn find_table(&self, name: &str) -> (found: Option<usize>)
        ensures
            match found {
                Some(i) => find(self@.tables, name@) == Some(i as int) && i < self@.tables.len(),
                None => find(self@.tables, name@) is None,
            },
    {
        let ghost tables = table_views(self.tables@);
        proof {
            lemma_find(tables, name@);
        }
        let mut i: usize = 0;
        while i < self.tables.len()
            invariant
                i <= self.tables@.len(),
                tables == table_views(self.tables@),
                forall|k: int| 0 <= k < i ==> (#[trigger] tables[k]).name != name@,
            decreases self.tables@.len() - i,
        {
            if self.tables[i].name().as_str().eq(name) {
                proof {
                    assert(tables[i as int].name == name@);
                    lemma_find(tables, name@);
                    match find(tables, name@) {
                        Some(j) => {
                            if j < i {
                                assert(tables[j].name != name@);
                            }
                            if j > i {
                                assert(tables[i as int].name != name@);
                            }
                        },
                        None => {
                            assert(tables[i as int].name != name@);
                        },
                    }
                }
                return Some(i);
            }
            i = i + 1;
        }
        None
    }

    /// Where the data of the next table goes when no offset is given.
    pub fn next_offset(&self) -> (offset: usize)
        requires
            self@.wf(),
        ensures
            offset == self@.next_offset(),
            offset <= META_SIZE + 28672 * self@.tables.len(),
    {
        let ghost tables = table_views(self.tables@);
        let mut occupied_bytes: usize = 0;
        let mut i: usize = 0;
        while i < self.tables.len()
            invariant
                i <= self.tables@.len(),
                self@.wf(),
                tables == table_views(self.tables@),
                occupied_bytes == occupied(tables.take(i as int)),
                occupied_bytes <= 28672 * i,
            decreases self.tables@.len() - i,
        {
            proof {
                assert(tables.take(i + 1).drop_last() =~= tables.take(i as int));
                assert(tables[i as int].wf());
                lemma_rows_per_page(tables[i as int]);
            }
            let total_rows = self.tables[i].total_rows();
            let table_pages: usize = (total_rows + (PAGE_SIZE - 1)) / PAGE_SIZE;
            assert(table_pages <= 7);
            occupied_bytes = occupied_bytes + table_pages * PAGE_SIZE;
            i = i + 1;
        }
        assert(tables.take(i as int) =~= tables);
        occupied_bytes + META_SIZE
    }

    /// The length that the catalog has as stored once `table` is put in.
    fn meta_len_with(&self, table: &Table) -> (len: usize)
        requires
            self@.wf(),
            table@.wf(),
        ensures
            len == self@.with_table(table@).meta_len(),
    {
        let ghost tables = table_views(self.tables@);
        let name = table.name();
        let mut len: usize = 1 + TABLE_ENTRY_SIZE + COLUMN_ENTRY_SIZE * table.columns().len();
        let mut i: usize = 0;
        while i < self.tables.len()
            invariant
                i <= self.tables@.len(),
                self@.wf(),
                tables == table_views(self.tables@),
                name@ == table@.name,
                len == 1 + entry_len(table@) + others_len(tables.take(i as int), table@.name),
                len <= 8500 * (i + 1),
            decreases self.tables@.len() - i,
        {
            proof {
                assert(tables.take(i + 1).drop_last() =~= tables.take(i as int));
                assert(tables[i as int].wf());
            }
            if !self.tables[i].name().as_str().eq(name.as_str()) {
                len = len + TABLE_ENTRY_SIZE + COLUMN_ENTRY_SIZE * self.tables[i].columns().len();
            }
            i = i + 1;
        }
        proof {
            assert(tables.take(i as int) =~= tables);
            lemma_with_table_len(self@, table@);
        }
        len
    }

    /// Writes the header to the start of the backing file: the count, the
    /// entry of each table, and zeros up to 4096 bytes.
    pub fn flush(&mut self)
        requires
            old(self)@.wf(),
        ensures
            final(self)@ == old(self)@.flushed(),
            final(self)@.wf(),
    {
        let ghost tables = table_views(self.tables@);
        let mut buff: Vec<u8> = Vec::new();
        buff.push(self.num_tables);
        let mut i: usize = 0;
        assert(buff@ =~= seq![self.num_tables] + entries(tables.take(0)));
        while i < self.tables.len()
            invariant
                i <= self.tables@.len(),
                self@.wf(),
                tables == table_views(self.tables@),
                buff@ == seq![self.num_tables] + entries(tables.take(i as int)),
            decreases self.tables@.len() - i,
        {
            proof {
                assert(tables.take(i + 1).drop_last() =~= tables.take(i as int));
                assert(tables[i as int].wf());
            }
            let mut meta = self.tables[i].get_table_meta();
            buff.append(&mut meta);
            i = i + 1;
            assert(buff@ =~= seq![self.num_tables] + entries(tables.take(i as int)));
        }
        proof {
            assert(tables.take(i as int) =~= tables);
            lemma_entries_prefix_len(tables);
        }
        let ghost filled = buff@;
        while buff.len() < META_SIZE
            invariant
                filled.len() <= buff@.len() <= META_SIZE,
                buff@ == filled + zeros((buff@.len() - filled.len()) as nat),
            decreases META_SIZE - buff@.len(),
        {
            buff.push(0u8);
            assert(buff@ =~= filled + zeros((buff@.len() - filled.len()) as nat));
        }
        assert(buff@ =~= self@.header());
        self.disk.write_at(0, buff.as_slice());
    }

    /// Puts `table` into the catalog, in place of the table of the same
    /// name if there is one, else as a new one that the count then counts,
    /// and writes the header if `flush` says so.
    pub fn create_table(&mut self, table: Table, flush: bool) -> (result: Result<(), String>)
        requires
            old(self)@.wf(),
            table@.wf(),
            old(self)@.with_table(table@).meta_len() <= META_SIZE,
        ensures
            result is Ok,
            final(self)@ == if flush {
                old(self)@.with_table(table@).flushed()
            } else {
                old(self)@.with_table(table@)
            },
            final(self)@.wf(),
    {
        proof {
            lemma_with_table_wf(self@, table@);
        }
        let ghost before = self@.tables;
        match self.find_table(table.name().as_str()) {
            Some(i) => {
                self.tables.set(i, table);
                assert(self@.tables =~= before.update(i as int, table@));
            },
            None => {
                proof {
                    lemma_entries_len_lower(before.push(table@));
                }
                self.tables.push(table);
                assert(self@.tables =~= before.push(table@));
                self.num_tables = self.num_tables + 1;
            },
        }
        if flush {
            self.flush();
        }
        Ok(())
    }

    /// Makes a table and puts it into the catalog. Without a start offset
    /// the table's data goes after the pages set aside for the tables held.
    /// Fails, and changes nothing, where the arguments make no table or the
    /// header has no room for the entry.
    pub fn add_table(
        &mut self,
        table_name: String,
        columns: Vec<Column>,
        total_rows: usize,
        start_offset: Option<usize>,
        flush: bool,
    ) -> (result: Result<(), String>)
        requires
            old(self)@.wf(),
        ensures
            final(self)@.wf(),
            match result {
                Ok(_) => old(self)@.add_error(
                    table_name@,
                    column_views(columns@),
                    total_rows as int,
                    match start_offset {
                        Some(offset) => offset as int,
                        None => old(self)@.next_offset(),
                    },
                    flush,
                ) is None && final(self)@ == old(self)@.added(
                    table_name@,
                    column_views(columns@),
                    total_rows as int,
                    match start_offset {
                        Some(offset) => offset as int,
                        None => old(self)@.next_offset(),
                    },
                    flush,
                ),
                Err(e) => old(self)@.add_error(
                    table_name@,
                    column_views(columns@),
                    total_rows as int,
                    match start_offset {
                        Some(offset) => offset as int,
                        None => old(self)@.next_offset(),
                    },
                    flush,
                ) == Some(e@) && final(self)@ == old(self)@,
            },
    {
        let table_start_offset = match start_offset {
            Some(offset) => offset,
            None => self.next_offset(),
        };
        if !Table::accepts(&columns, total_rows, table_start_offset) {
            return Err("Invalid table definition".to_owned());
        }
        let table = Table::new(table_name, columns, total_rows, table_start_offset);
        if self.meta_len_with(&table) > META_SIZE {
            return Err("Metadata full".to_owned());
        }
        self.create_table(table, flush)
    }

    /// Opens the catalog stored at the head of `disk`: reads the count and
    /// that many table entries, and makes each table without reading any of
    /// its rows. Fails where an entry runs past the header, names an
    /// unknown column type, or gives no table.
    pub fn new(disk: Disk) -> (result: Result<Self, String>)
        ensures
            match result {
                Ok(db) => DataBaseView::opened(disk@) == Ok::<DataBaseView, Seq<char>>(db@)
                    && db@.wf(),
                Err(e) => DataBaseView::opened(disk@) == Err::<DataBaseView, Seq<char>>(e@),
            },
    {
        let mut table_meta = disk.read_at(0, META_SIZE);
        let ghost read = table_meta@;
        while table_meta.len() < META_SIZE
            invariant
                read.len() <= table_meta@.len() <= META_SIZE,
                table_meta@ == read + zeros((table_meta@.len() - read.len()) as nat),
            decreases META_SIZE - table_meta@.len(),
        {
            table_meta.push(0u8);
            assert(table_meta@ =~= read + zeros((table_meta@.len() - read.len()) as nat));
        }
        let ghost header = header_image(disk@);
        let ghost image = disk@;
        assert(table_meta@ =~= header);
        let num_tables = table_meta[0];
        let mut database = DataBase { tables: Vec::new(), num_tables: 0, disk };
        assert(database@.tables =~= Seq::<TableView>::empty());
        let mut i: u8 = 0;
        let mut offset: usize = 1;
        while i < num_tables
            invariant
                i <= num_tables,
                table_meta@ == header,
                header == header_image(image),
                image == disk@,
                num_tables == header[0],
                header.len() == META_SIZE,
                offset <= META_SIZE,
                database@.wf(),
                database@.disk == image,
                DataBaseView::loaded(header, image, i as int) == Ok::<
                    (DataBaseView, int),
                    Seq<char>,
                >((database@, offset as int)),
            decreases num_tables - i,
        {
            let entry = match read_table(table_meta.as_slice(), offset) {
                Ok(entry) => entry,
                Err(e) => {
                    proof {
                        assert(DataBaseView::loaded(header, image, i as int + 1) == Err::<
                            (DataBaseView, int),
                            Seq<char>,
                        >(e@));
                        lemma_loaded_error(header, image, i as int + 1, num_tables as int);
                    }
                    return Err(e);
                },
            };
            let ghost stored = entry@;
            let ghost before = database@;
            let next: usize = offset + TABLE_ENTRY_SIZE + COLUMN_ENTRY_SIZE * entry.columns.len();
            if entry.start_offset > usize::MAX as u64 {
                proof {
                    assert(!acceptable(
                        stored.columns,
                        stored.total_rows,
                        stored.start_offset,
                    ));
                    assert(DataBaseView::loaded(header, image, i as int + 1) == Err::<
                        (DataBaseView, int),
                        Seq<char>,
                    >("Invalid table definition"@));
                    lemma_loaded_error(header, image, i as int + 1, num_tables as int);
                }
                return Err("Invalid table definition".to_owned());
            }
            match database.add_table(
                entry.name,
                entry.columns,
                entry.total_rows as usize,
                Some(entry.start_offset as usize),
                false,
            ) {
                Ok(_) => {},
                Err(e) => {
                    proof {
                        assert(DataBaseView::loaded(header, image, i as int + 1) == Err::<
                            (DataBaseView, int),
                            Seq<char>,
                        >(e@));
                        lemma_loaded_error(header, image, i as int + 1, num_tables as int);
                    }
                    return Err(e);
                },
            }
            assert(DataBaseView::loaded(header, image, i as int + 1) == Ok::<
                (DataBaseView, int),
                Seq<char>,
            >((database@, next as int)));
            offset = next;
            i = i + 1;
        }
        Ok(database)
    }
}

/// An error in the first `k` entries is the error of any longer run.
pub proof fn lemma_loaded_error(header: Seq<u8>, disk: Seq<u8>, k: int, count: int)
    requires
        0 <= k <= count,
        DataBaseView::loaded(header, disk, k) is Err,
    ensures
        DataBaseView::loaded(header, disk, count) == DataBaseView::loaded(header, disk, k),
    decreases count - k,
{
    if k < count {
        lemma_loaded_error(header, disk, k, count - 1);
    }
}

/// Putting a well-formed table in place of one of the same name and
/// schema keeps a catalog well formed, and its header as it is but for the
/// row count of that table.
pub proof fn lemma_with_table_at_wf(db: DataBaseView, i: int, table: TableView)
    requires
        db.wf(),
        0 <= i < db.tables.len(),
        table.wf(),
        table.name == db.tables[i].name,
        table.columns == db.tables[i].columns,
    ensures
        db.with_table_at(i, table).wf(),
        db.with_table_at(i, table).meta_len() == db.meta_len(),
{
    let after = db.with_table_at(i, table);
    lemma_entries_len_update(db.tables, i, table);
    assert forall|a: int, b: int| 0 <= a < b < after.tables.len() implies (
    #[trigger] after.tables[a]).name != (#[trigger] after.tables[b]).name by {
        assert(after.tables[a].name == db.tables[a].name);
        assert(after.tables[b].name == db.tables[b].name);
    }
}

impl DataBase {
    /// The table at `index`.
    pub fn table(&self, index: usize) -> (table: &Table)
        requires
            index < self@.tables.len(),
        ensures
            table@ == self@.tables[index as int],
    {
        &self.tables[index]
    }

    /// The grid that a query for `columns` on the table at `index` shows:
    /// the header row, then one row of cells for each row of the table.
    /// Brings every page of that table that holds rows into memory.
    pub fn select_rows(&mut self, index: usize, columns: &Vec<String>) -> (grid: Vec<Vec<String>>)
        requires
            old(self)@.wf(),
            index < old(self)@.tables.len(),
        ensures
            grid_view(grid@) == old(self)@.tables[index as int].grid(
                old(self)@.disk,
                text_views(columns@),
            ),
            final(self)@ == old(self)@.with_table_at(
                index as int,
                old(self)@.tables[index as int].with_pages(
                    old(self)@.disk,
                    old(self)@.tables[index as int].pages_in_use(),
                ),
            ),
            final(self)@.wf(),
    {
        let ghost before = self@;
        let ghost table = before.tables[index as int];
        assert(table.wf());
        let grid = self.tables[index].select_rows(&self.disk, columns);
        proof {
            let after = table.with_pages(before.disk, table.pages_in_use());
            assert(self@.tables =~= before.tables.update(index as int, after));
            lemma_rows_per_page(table);
            crate::table::lemma_pages_touched(table.total_rows, table.rows_per_page());
            crate::table::lemma_with_pages(table, before.disk, table.pages_in_use(), 0);
            lemma_with_table_at_wf(before, index as int, after);
        }
        grid
    }

    /// The lines that a query for `columns` on the table at `index` prints.
    /// Brings every page of that table that holds rows into memory.
    pub fn print_table(&mut self, index: usize, columns: Vec<String>) -> (lines: Vec<String>)
        requires
            old(self)@.wf(),
            index < old(self)@.tables.len(),
        ensures
            text_views(lines@) == seq![
                title_line(
                    old(self)@.tables[index as int].name,
                    old(self)@.tables[index as int].total_rows,
                ),
            ] + table_rendering(
                old(self)@.tables[index as int].grid(old(self)@.disk, text_views(columns@)),
            ),
            final(self)@ == old(self)@.with_table_at(
                index as int,
                old(self)@.tables[index as int].with_pages(
                    old(self)@.disk,
                    old(self)@.tables[index as int].pages_in_use(),
                ),
            ),
            final(self)@.wf(),
    {
        let ghost before = self@;
        let ghost table = before.tables[index as int];
        assert(table.wf());
        let lines = self.tables[index].print_table(&self.disk, columns);
        proof {
            let after = table.with_pages(before.disk, table.pages_in_use());
            assert(self@.tables =~= before.tables.update(index as int, after));
            lemma_rows_per_page(table);
            crate::table::lemma_pages_touched(table.total_rows, table.rows_per_page());
            crate::table::lemma_with_pages(table, before.disk, table.pages_in_use(), 0);
            lemma_with_table_at_wf(before, index as int, after);
        }
        lines
    }

    /// Whether the table at `index` has room for one more row. Brings the
    /// page that the row would go to into memory, unless the table is full.
    pub fn check_insert(&mut self, index: usize) -> (result: Result<(), String>)
        requires
            old(self)@.wf(),
            index < old(self)@.tables.len(),
        ensures
            final(self)@.wf(),
            final(self)@.num_tables == old(self)@.num_tables,
            final(self)@.disk == old(self)@.disk,
            final(self)@.tables.len() == old(self)@.tables.len(),
            forall|i: int|
                0 <= i < old(self)@.tables.len() && i != index ==> final(self)@.tables[i] == old(
                    self,
                )@.tables[i],
            ({
                let table = old(self)@.tables[index as int];
                let after = final(self)@.tables[index as int];
                let disk = old(self)@.disk;
                let page = table.total_rows / table.rows_per_page();
                &&& table.total_rows >= table.capacity() ==> after == table && (match result {
                    Ok(_) => false,
                    Err(e) => e@ == "Table full."@,
                })
                &&& table.total_rows < table.capacity() ==> after == table.with_page(disk, page)
                    && (match result {
                    Ok(_) => table.page(disk, page).current_row < table.rows_per_page(),
                    Err(e) => e@ == "Page full."@ && table.page(disk, page).current_row
                        >= table.rows_per_page(),
                })
            }),
    {
        let ghost before = self@;
        let ghost table = before.tables[index as int];
        assert(table.wf());
        let result = self.tables[index].check_insert(&self.disk);
        proof {
            let after = self@.tables[index as int];
            assert(self@.tables =~= before.tables.update(index as int, after));
            assert(after.name == table.name);
            lemma_with_table_at_wf(before, index as int, after);
        }
        result
    }

    /// Appends `values`, one row each, to the table at `index`, and writes
    /// each page that takes a row to the backing file.
    pub fn insert_rows(&mut self, index: usize, values: Vec<&[u8]>) -> (result: Result<
        (),
        String,
    >)
        requires
            old(self)@.wf(),
            index < old(self)@.tables.len(),
            old(self)@.tables[index as int].takes_all(old(self)@.disk, row_views(values@)),
        ensures
            result is Ok,
            final(self)@ == (DataBaseView {
                tables: old(self)@.tables.update(
                    index as int,
                    old(self)@.tables[index as int].insert_all(
                        old(self)@.disk,
                        row_views(values@),
                    ).0,
                ),
                disk: old(self)@.tables[index as int].insert_all(
                    old(self)@.disk,
                    row_views(values@),
                ).1,
                num_tables: old(self)@.num_tables,
            }),
            final(self)@.wf(),
    {
        let ghost before = self@;
        let ghost table = before.tables[index as int];
        assert(table.wf());
        let result = self.tables[index].insert_rows(&mut self.disk, values);
        proof {
            let after = self@.tables[index as int];
            assert(self@.tables =~= before.tables.update(index as int, after));
            crate::table::lemma_insert_all_keeps(table, before.disk, row_views(values@));
            lemma_with_table_at_wf(before, index as int, after);
        }
        result
    }
}

/// Columns that are all fields get the identifier column in front.
pub proof fn lemma_fields_get_id(columns: Seq<ColumnView>)
    requires
        forall|i: int| 0 <= i < columns.len() ==> (#[trigger] columns[i]).col_type
            == crate::table::ColumnType::FIELD,
    ensures
        with_id(columns) == seq![crate::table::id_column()] + columns,
{
}

/// A table that was put into the catalog is found there by its name.
pub proof fn lemma_with_table_holds(db: DataBaseView, table: TableView)
    requires
        db.wf(),
    ensures
        match find(db.with_table(table).tables, table.name) {
            Some(i) => 0 <= i < db.with_table(table).tables.len() && db.with_table(
                table,
            ).tables[i] == table,
            None => false,
        },
{
    let after = db.with_table(table).tables;
    lemma_find(db.tables, table.name);
    lemma_find(after, table.name);
    match find(db.tables, table.name) {
        Some(i) => {
            assert(after[i] == table);
            match find(after, table.name) {
                Some(j) => {
                    if j < i {
                        assert(after[j] == db.tables[j]);
                    }
                    if j > i {
                        assert(after[j] == db.tables[j]);
                        assert(db.tables[i].name != db.tables[j].name);
                    }
                },
                None => {},
            }
        },
        None => {
            let n = db.tables.len() as int;
            assert(after[n] == table);
            match find(after, table.name) {
                Some(j) => {
                    if j < n {
                        assert(after[j] == db.tables[j]);
                    }
                },
                None => {},
            }
        },
    }
}

} // verus!
