//! Columns, pages and tables: the paged, append-only row engine.
use vstd::prelude::*;
use vstd::slice::slice_subrange;
use crate::disk::{overlay, read_range, write_range, zeros, Disk};
use crate::ids::{hyphenated, uuid_text};
use crate::render::{grid_view, render_table, table_rendering, title, title_line};
use crate::text::{contains_text, decode_lossy, text_views, lossy_text};

verus! {

/// Size in bytes of one page of row data.
pub const PAGE_SIZE: usize = 4096;

/// The most pages a table may hold.
pub const TABLE_MAX_PAGES: usize = 100;

/// Width in bytes of a row identifier.
pub const ID_SIZE: usize = 16;

/// Width in bytes of an integer field.
pub const INT_SIZE: usize = 4;

/// Width in bytes of a string field.
pub const STRING_SIZE: usize = 200;

/// The most columns a table may have, the identifier included.
pub const MAX_COLUMNS: usize = 255;

/// Size in bytes of the region at the head of the backing file that holds
/// the catalog; the rows of every table lie after it.
pub const META_SIZE: usize = 4096;

/// The kinds of value a column can hold.
#[derive(Debug, Clone, Copy, PartialEq, Eq, Structural)]
pub enum DataType {
    INT,
    STRING,
    UUID,
}

/// Whether a column is the synthetic row identifier or a user's field.
#[derive(Debug, Clone, Copy, PartialEq, Eq, Structural)]
pub enum ColumnType {
    ID,
    FIELD,
}

/// The width in bytes that a data type fixes for its column.
pub open spec fn width_of(data_type: DataType) -> int {
    match data_type {
        DataType::UUID => 16,
        DataType::INT => 4,
        DataType::STRING => 200,
    }
}

/// The width in bytes that a data type fixes for its column.
pub fn data_type_width(data_type: DataType) -> (width: usize)
    ensures
        width == width_of(data_type),
{
    match data_type {
        DataType::UUID => ID_SIZE,
        DataType::INT => INT_SIZE,
        DataType::STRING => STRING_SIZE,
    }
}

/// One column of a table's schema.
#[derive(Debug, Clone)]
pub struct Column {
    pub name: String,
    pub size: usize,
    pub col_type: ColumnType,
    pub data_type: DataType,
}

/// A [`Column`] with its name as a sequence of characters.
pub ghost struct ColumnView {
    pub name: Seq<char>,
    pub size: int,
    pub col_type: ColumnType,
    pub data_type: DataType,
}

impl View for Column {
    type V = ColumnView;

    open spec fn view(&self) -> ColumnView {
        ColumnView {
            name: self.name@,
            size: self.size as int,
            col_type: self.col_type,
            data_type: self.data_type,
        }
    }
}

impl ColumnView {
    /// A row identifier column: 16 bytes holding a UUID.
    pub open spec fn is_id(self) -> bool {
        self.col_type == ColumnType::ID && self.data_type == DataType::UUID && self.size == 16
    }

    /// A user's field: an integer or a string, of the width its type fixes.
    pub open spec fn is_field(self) -> bool {
        self.col_type == ColumnType::FIELD && self.data_type != DataType::UUID && self.size
            == width_of(self.data_type)
    }
}

/// The identifier column that every table starts with.
pub open spec fn id_column() -> ColumnView {
    ColumnView { name: "id"@, size: 16, col_type: ColumnType::ID, data_type: DataType::UUID }
}

/// The views of a run of columns.
pub open spec fn column_views(columns: Seq<Column>) -> Seq<ColumnView> {
    columns.map_values(|c: Column| c@)
}

impl Column {
    /// A column with the given name, width, kind and data type.
    pub fn new(name: String, size: usize, col_type: ColumnType, data_type: DataType) -> (column:
        Self)
        ensures
            column@ == (ColumnView { name: name@, size: size as int, col_type, data_type }),
    {
        Column { name, size, col_type, data_type }
    }

}

/// A fixed-size buffer that holds a run of rows of one width, packed from
/// offset 0.
#[derive(Debug)]
pub struct Page {
    data: Vec<u8>,
    row_size: usize,
    current_row: usize,
}

/// The contents of a [`Page`].
pub ghost struct PageView {
    pub data: Seq<u8>,
    pub row_size: int,
    pub current_row: int,
}

impl PageView {
    /// The number of rows the page has room for.
    pub open spec fn capacity(self) -> int {
        PAGE_SIZE as int / self.row_size
    }

    /// The buffer is one page long, rows have a width, and the next free
    /// slot is at most one past the last.
    pub open spec fn wf(self) -> bool {
        &&& self.data.len() == PAGE_SIZE
        &&& 0 < self.row_size
        &&& 0 <= self.current_row <= self.capacity()
    }

    /// The bytes in slot `i`.
    pub open spec fn row(self, i: int) -> Seq<u8> {
        self.data.subrange(i * self.row_size, (i + 1) * self.row_size)
    }

    /// An empty page for rows of `row_size` bytes.
    pub open spec fn empty(row_size: int) -> PageView {
        PageView { data: zeros(PAGE_SIZE as nat), row_size, current_row: 0 }
    }

    /// The page after `row` is placed in the next free slot.
    pub open spec fn with_row(self, row: Seq<u8>) -> PageView {
        PageView {
            data: overlay(self.data, self.current_row * self.row_size, row),
            row_size: self.row_size,
            current_row: self.current_row + 1,
        }
    }

    /// The page after `bytes`, read from the backing file, are laid over its
    /// start: the next free slot follows the last whole row that was read.
    pub open spec fn filled(self, bytes: Seq<u8>) -> PageView {
        PageView {
            data: overlay(self.data, 0, bytes),
            row_size: self.row_size,
            current_row: bytes.len() as int / self.row_size,
        }
    }

    /// The bytes that a flush writes: the slots before the next free one.
    pub open spec fn used(self) -> Seq<u8> {
        self.data.subrange(0, self.current_row * self.row_size)
    }
}

impl View for Page {
    type V = PageView;

    closed spec fn view(&self) -> PageView {
        PageView {
            data: self.data@,
            row_size: self.row_size as int,
            current_row: self.current_row as int,
        }
    }
}

/// `rows` whole rows of `row_size` bytes fit in a page of `capacity` rows.
pub proof fn lemma_rows_fit(rows: int, row_size: int)
    requires
        0 < row_size,
        0 <= rows <= PAGE_SIZE as int / row_size,
    ensures
        0 <= rows * row_size <= PAGE_SIZE,
{
    assert(rows * row_size <= (PAGE_SIZE as int / row_size) * row_size) by (nonlinear_arith)
        requires
            0 <= rows <= PAGE_SIZE as int / row_size,
            0 < row_size,
    ;
    assert((PAGE_SIZE as int / row_size) * row_size <= PAGE_SIZE) by (nonlinear_arith)
        requires
            0 < row_size,
    ;
    assert(0 <= rows * row_size) by (nonlinear_arith)
        requires
            0 <= rows,
            0 < row_size,
    ;
}

impl Page {
    /// An empty, zeroed page for rows of `row_size` bytes.
    pub fn new(row_size: usize) -> (page: Self)
        requires
            row_size > 0,
        ensures
            page@ == PageView::empty(row_size as int),
            page@.wf(),
    {
        let mut data: Vec<u8> = Vec::new();
        let mut i: usize = 0;
        while i < PAGE_SIZE
            invariant
                i <= PAGE_SIZE,
                data@ == zeros(i as nat),
            decreases PAGE_SIZE - i,
        {
            data.push(0u8);
            i = i + 1;
            assert(data@ =~= zeros(i as nat));
        }
        let page = Page { data, row_size, current_row: 0 };
        assert(0 <= PAGE_SIZE as int / (row_size as int)) by (nonlinear_arith)
            requires
                row_size > 0,
        ;
        page
    }

    /// The width of the rows this page holds.
    pub fn row_size(&self) -> (n: usize)
        ensures
            n == self@.row_size,
    {
        self.row_size
    }

    /// The next free slot.
    pub fn current_row(&self) -> (n: usize)
        ensures
            n == self@.current_row,
    {
        self.current_row
    }

    /// The bytes in slot `row_number`.
    pub fn read_row(&self, row_number: usize) -> (row: &[u8])
        requires
            self@.wf(),
            row_number < self@.capacity(),
        ensures
            row@ == self@.row(row_number as int),
    {
        proof {
            lemma_rows_fit(row_number as int + 1, self.row_size as int);
            lemma_rows_fit(row_number as int, self.row_size as int);
            assert((row_number + 1) * self.row_size == row_number * self.row_size + self.row_size)
                by (nonlinear_arith);
        }
        let start: usize = row_number * self.row_size;
        slice_subrange(self.data.as_slice(), start, start + self.row_size)
    }

    /// Places `data` in the next free slot and moves that slot on by one.
    pub fn write_row(&mut self, data: &[u8]) -> (result: Result<(), String>)
        requires
            old(self)@.wf(),
            data@.len() == old(self)@.row_size,
            old(self)@.current_row < old(self)@.capacity(),
        ensures
            result is Ok,
            final(self)@ == old(self)@.with_row(data@),
            final(self)@.wf(),
    {
        proof {
            lemma_rows_fit(self.current_row as int + 1, self.row_size as int);
            lemma_rows_fit(self.current_row as int, self.row_size as int);
            assert((self.current_row + 1) * self.row_size == self.current_row * self.row_size
                + self.row_size) by (nonlinear_arith);
        }
        let start: usize = self.current_row * self.row_size;
        let mut i: usize = 0;
        while i < data.len()
            invariant
                i <= data@.len(),
                data@.len() == self.row_size,
                start + self.row_size <= PAGE_SIZE,
                self.row_size == old(self).row_size,
                self.current_row == old(self).current_row,
                start == old(self).current_row * old(self).row_size,
                self.data@.len() == PAGE_SIZE,
                self.data@ == overlay(old(self).data@, start as int, data@.take(i as int)),
            decreases data@.len() - i,
        {
            self.data.set(start + i, data[i]);
            i = i + 1;
            assert(self.data@ =~= overlay(old(self).data@, start as int, data@.take(i as int)));
        }
        assert(data@.take(i as int) =~= data@);
        self.current_row = self.current_row + 1;
        Ok(())
    }

    /// Lays `bytes`, read from the backing file, over the start of the
    /// buffer and sets the next free slot after the last whole row read.
    pub fn fill(&mut self, bytes: &[u8])
        requires
            old(self)@.wf(),
            bytes@.len() <= PAGE_SIZE,
        ensures
            final(self)@ == old(self)@.filled(bytes@),
            final(self)@.wf(),
    {
        let mut i: usize = 0;
        while i < bytes.len()
            invariant
                i <= bytes@.len(),
                bytes@.len() <= PAGE_SIZE,
                self.row_size == old(self).row_size,
                self.data@.len() == PAGE_SIZE,
                self.data@ == overlay(old(self).data@, 0, bytes@.take(i as int)),
            decreases bytes@.len() - i,
        {
            self.data.set(i, bytes[i]);
            i = i + 1;
            assert(self.data@ =~= overlay(old(self).data@, 0, bytes@.take(i as int)));
        }
        assert(bytes@.take(i as int) =~= bytes@);
        self.current_row = bytes.len() / self.row_size;
        proof {
            let rs = self.row_size as int;
            let n = bytes@.len() as int;
            assert(0 <= n / rs <= PAGE_SIZE as int / rs) by (nonlinear_arith)
                requires
                    0 <= n <= PAGE_SIZE as int,
                    0 < rs,
            ;
        }
    }

    /// The bytes that a flush writes: the slots before the next free one.
    pub fn used(&self) -> (bytes: &[u8])
        requires
            self@.wf(),
        ensures
            bytes@ == self@.used(),
    {
        proof {
            lemma_rows_fit(self.current_row as int, self.row_size as int);
        }
        slice_subrange(self.data.as_slice(), 0, self.current_row * self.row_size)
    }
}

/// The width of a row: the sum of the widths of its columns.
pub open spec fn row_width(columns: Seq<ColumnView>) -> int
    decreases columns.len(),
{
    if columns.len() == 0 {
        0
    } else {
        row_width(columns.drop_last()) + columns.last().size
    }
}

/// Some column is a row identifier.
pub open spec fn has_id(columns: Seq<ColumnView>) -> bool {
    exists|i: int| 0 <= i < columns.len() && (#[trigger] columns[i]).col_type == ColumnType::ID
}

/// The schema of a table made from `columns`: the identifier column is put
/// in front unless the columns already hold one.
pub open spec fn with_id(columns: Seq<ColumnView>) -> Seq<ColumnView> {
    if has_id(columns) {
        columns
    } else {
        seq![id_column()] + columns
    }
}

/// A schema that a table can have: the identifier first, then fields only,
/// at most [`MAX_COLUMNS`] columns, and a row that fits in a page.
pub open spec fn valid_schema(columns: Seq<ColumnView>) -> bool {
    &&& 1 <= columns.len() <= MAX_COLUMNS
    &&& columns[0].is_id()
    &&& forall|i: int| 1 <= i < columns.len() ==> (#[trigger] columns[i]).is_field()
    &&& row_width(columns) <= PAGE_SIZE
}

/// What [`Table::new`] accepts: columns that give a valid schema, no more
/// rows than a table can hold, and a data region that lies after the
/// catalog and can be addressed.
pub open spec fn acceptable(columns: Seq<ColumnView>, total_rows: int, start_offset: int) -> bool {
    &&& valid_schema(with_id(columns))
    &&& 0 <= total_rows <= TABLE_MAX_PAGES * (PAGE_SIZE as int / row_width(with_id(columns)))
    &&& META_SIZE <= start_offset
    &&& start_offset + TABLE_MAX_PAGES * PAGE_SIZE <= usize::MAX
}

/// The state of a [`Table`].
pub ghost struct TableView {
    pub name: Seq<char>,
    pub columns: Seq<ColumnView>,
    pub total_rows: int,
    pub start_offset: int,
    pub pages: Seq<Option<PageView>>,
}

/// `n` page slots, none of them loaded.
pub open spec fn empty_slots(n: int) -> Seq<Option<PageView>> {
    Seq::new(n as nat, |i: int| None::<PageView>)
}

impl TableView {
    /// The width of a row, which is the stride between slots of a page.
    pub open spec fn row_size(self) -> int {
        row_width(self.columns)
    }

    /// The number of rows that one page holds.
    pub open spec fn rows_per_page(self) -> int {
        PAGE_SIZE as int / self.row_size()
    }

    /// The most rows the table can hold.
    pub open spec fn capacity(self) -> int {
        TABLE_MAX_PAGES * self.rows_per_page()
    }

    /// Where page `p` lies in the backing file.
    pub open spec fn page_offset(self, p: int) -> int {
        self.start_offset + p * PAGE_SIZE
    }

    /// Page `p` is held in memory.
    pub open spec fn resident(self, p: int) -> bool {
        0 <= p < self.pages.len() && self.pages[p] is Some
    }

    /// The schema is valid, the rows fit, the data region lies after the
    /// catalog and can be addressed, every page in memory holds rows of the
    /// table's width, and a page in memory that lies past the last row is
    /// empty.
    pub open spec fn wf(self) -> bool {
        &&& valid_schema(self.columns)
        &&& 0 <= self.total_rows <= self.capacity()
        &&& META_SIZE <= self.start_offset
        &&& self.start_offset + TABLE_MAX_PAGES * PAGE_SIZE <= usize::MAX
        &&& self.pages.len() <= TABLE_MAX_PAGES
        &&& forall|p: int|
            0 <= p < self.pages.len() && (#[trigger] self.pages[p]) is Some ==> {
                &&& self.pages[p]->0.wf()
                &&& self.pages[p]->0.row_size == self.row_size()
                &&& (p * self.rows_per_page() >= self.total_rows ==> self.pages[p]->0.current_row
                    == 0)
            }
    }

    /// Page `p` as it is made when first asked for: read from the backing
    /// file where the table has rows on it, else empty.
    pub open spec fn fetched_page(self, disk: Seq<u8>, p: int) -> PageView {
        if self.total_rows > p * self.rows_per_page() {
            PageView::empty(self.row_size()).filled(
                read_range(disk, self.page_offset(p), PAGE_SIZE as int),
            )
        } else {
            PageView::empty(self.row_size())
        }
    }

    /// Page `p`: the copy in memory where there is one, else what the
    /// backing file gives.
    pub open spec fn page(self, disk: Seq<u8>, p: int) -> PageView {
        if self.resident(p) {
            self.pages[p]->0
        } else {
            self.fetched_page(disk, p)
        }
    }

    /// The page slots, extended by empty ones to at least `n`.
    pub open spec fn slots(self, n: int) -> Seq<Option<PageView>> {
        if self.pages.len() >= n {
            self.pages
        } else {
            self.pages + empty_slots(n - self.pages.len())
        }
    }

    /// The table with page `p` in memory.
    pub open spec fn with_page(self, disk: Seq<u8>, p: int) -> TableView {
        TableView { pages: self.slots(p + 1).update(p, Some(self.page(disk, p))), ..self }
    }

    /// Row `r` as a reader finds it.
    pub open spec fn row(self, disk: Seq<u8>, r: int) -> Seq<u8> {
        self.page(disk, r / self.rows_per_page()).row(r % self.rows_per_page())
    }

    /// All rows, in insertion order.
    pub open spec fn rows(self, disk: Seq<u8>) -> Seq<Seq<u8>> {
        Seq::new(self.total_rows as nat, |r: int| self.row(disk, r))
    }

    /// The table can take `row` now: it has the table's row width, the table
    /// is not full, and the page it goes to has a free slot.
    pub open spec fn takes(self, disk: Seq<u8>, row: Seq<u8>) -> bool {
        &&& row.len() == self.row_size()
        &&& self.total_rows < self.capacity()
        &&& self.page(disk, self.total_rows / self.rows_per_page()).current_row
            < self.rows_per_page()
    }

    /// The table and the backing file after `row` is inserted: the row goes
    /// to the next free slot of the page that the row count points at, and
    /// the used part of that page is written to the file.
    pub open spec fn insert(self, disk: Seq<u8>, row: Seq<u8>) -> (TableView, Seq<u8>) {
        let p = self.total_rows / self.rows_per_page();
        let page = self.page(disk, p).with_row(row);
        (
            TableView {
                pages: self.slots(p + 1).update(p, Some(page)),
                total_rows: self.total_rows + 1,
                ..self
            },
            write_range(disk, self.page_offset(p), page.used()),
        )
    }

    /// The table can take each of `rows`, one after the other.
    pub open spec fn takes_all(self, disk: Seq<u8>, rows: Seq<Seq<u8>>) -> bool
        decreases rows.len(),
    {
        rows.len() == 0 || (self.takes(disk, rows[0]) && self.insert(disk, rows[0]).0.takes_all(
            self.insert(disk, rows[0]).1,
            rows.drop_first(),
        ))
    }

    /// The table and the backing file after `rows` are inserted in order.
    pub open spec fn insert_all(self, disk: Seq<u8>, rows: Seq<Seq<u8>>) -> (TableView, Seq<u8>)
        decreases rows.len(),
    {
        if rows.len() == 0 {
            (self, disk)
        } else {
            self.insert(disk, rows[0]).0.insert_all(self.insert(disk, rows[0]).1, rows.drop_first())
        }
    }
}

/// The view of a page slot.
pub open spec fn slot_view(slot: Option<Page>) -> Option<PageView> {
    match slot {
        Some(page) => Some(page@),
        None => None,
    }
}

/// The views of a run of page slots.
pub open spec fn page_views(slots: Seq<Option<Page>>) -> Seq<Option<PageView>> {
    slots.map_values(|slot: Option<Page>| slot_view(slot))
}

/// A table: its schema, its row count, where its rows lie in the backing
/// file, and the pages of it that are in memory.
#[derive(Debug)]
pub struct Table {
    table_name: String,
    pages: Vec<Option<Page>>,
    columns: Vec<Column>,
    total_rows: usize,
    start_offset: usize,
}

impl View for Table {
    type V = TableView;

    closed spec fn view(&self) -> TableView {
        TableView {
            name: self.table_name@,
            columns: column_views(self.columns@),
            total_rows: self.total_rows as int,
            start_offset: self.start_offset as int,
            pages: page_views(self.pages@),
        }
    }
}

/// The width of a prefix of a schema grows with the prefix.
pub proof fn lemma_row_width_step(columns: Seq<ColumnView>, i: int)
    requires
        0 <= i < columns.len(),
    ensures
        row_width(columns.take(i + 1)) == row_width(columns.take(i)) + columns[i].size,
{
    assert(columns.take(i + 1).drop_last() =~= columns.take(i));
}

/// A valid schema has a row of at least 16 and at most 51000 bytes, and so
/// do its prefixes that hold the identifier.
pub proof fn lemma_row_width_bounds(columns: Seq<ColumnView>, i: int)
    requires
        0 <= i <= columns.len(),
        columns.len() >= 1,
        columns[0].is_id(),
        forall|k: int| 1 <= k < columns.len() ==> (#[trigger] columns[k]).is_field(),
    ensures
        0 <= row_width(columns.take(i)) <= 200 * i,
        i >= 1 ==> row_width(columns.take(i)) >= 16,
        row_width(columns.take(i)) <= row_width(columns),
    decreases columns.len() - i,
{
    lemma_row_width_prefix(columns, i);
    if i < columns.len() {
        lemma_row_width_bounds(columns, i + 1);
        lemma_row_width_step(columns, i);
        if i >= 1 {
            assert(columns[i].is_field());
        }
    } else {
        assert(columns.take(i) =~= columns);
    }
}

/// The width of a prefix, column by column.
pub proof fn lemma_row_width_prefix(columns: Seq<ColumnView>, i: int)
    requires
        0 <= i <= columns.len(),
        columns.len() >= 1,
        columns[0].is_id(),
        forall|k: int| 1 <= k < columns.len() ==> (#[trigger] columns[k]).is_field(),
    ensures
        0 <= row_width(columns.take(i)) <= 200 * i,
        i >= 1 ==> row_width(columns.take(i)) >= 16,
    decreases i,
{
    if i > 0 {
        lemma_row_width_prefix(columns, i - 1);
        lemma_row_width_step(columns, i - 1);
        if i - 1 >= 1 {
            assert(columns[i - 1].is_field());
        }
    }
}

/// In a well-formed table a page holds between 1 and 256 rows.
pub proof fn lemma_rows_per_page(t: TableView)
    requires
        valid_schema(t.columns),
    ensures
        16 <= t.row_size() <= PAGE_SIZE,
        1 <= t.rows_per_page() <= 256,
        t.rows_per_page() * t.row_size() <= PAGE_SIZE,
        0 <= t.capacity() <= 25600,
{
    lemma_row_width_bounds(t.columns, t.columns.len() as int);
    assert(t.columns.take(t.columns.len() as int) =~= t.columns);
    let rs = t.row_size();
    assert(1 <= PAGE_SIZE as int / rs <= 256 && (PAGE_SIZE as int / rs) * rs <= PAGE_SIZE)
        by (nonlinear_arith)
        requires
            16 <= rs <= PAGE_SIZE,
    ;
}

/// Whether `column` is a row identifier column.
fn column_is_id(column: &Column) -> (b: bool)
    ensures
        b == column@.is_id(),
{
    let by_type = match column.col_type {
        ColumnType::ID => true,
        ColumnType::FIELD => false,
    };
    let by_data = match column.data_type {
        DataType::UUID => true,
        _ => false,
    };
    by_type && by_data && column.size == ID_SIZE
}

/// Whether `column` is a user's field of the width its type fixes.
fn column_is_field(column: &Column) -> (b: bool)
    ensures
        b == column@.is_field(),
{
    let by_type = match column.col_type {
        ColumnType::ID => false,
        ColumnType::FIELD => true,
    };
    match column.data_type {
        DataType::UUID => false,
        DataType::INT => by_type && column.size == INT_SIZE,
        DataType::STRING => by_type && column.size == STRING_SIZE,
    }
}

/// Whether some column of `columns` is a row identifier.
fn holds_id(columns: &Vec<Column>) -> (found: bool)
    ensures
        found == has_id(column_views(columns@)),
{
    let mut found = false;
    let mut i: usize = 0;
    while i < columns.len()
        invariant
            i <= columns.len(),
            found == has_id(column_views(columns@).take(i as int)),
        decreases columns.len() - i,
    {
        let ghost before = column_views(columns@).take(i as int);
        let ghost after = column_views(columns@).take(i + 1);
        match columns[i].col_type {
            ColumnType::ID => {
                found = true;
                assert(after[i as int].col_type == ColumnType::ID);
            },
            ColumnType::FIELD => {
                proof {
                    if has_id(before) {
                        let k = choose|k: int|
                            0 <= k < before.len() && (#[trigger] before[k]).col_type
                                == ColumnType::ID;
                        assert(after[k] == before[k]);
                    }
                    if has_id(after) {
                        let k = choose|k: int|
                            0 <= k < after.len() && (#[trigger] after[k]).col_type
                                == ColumnType::ID;
                        assert(k < i);
                        assert(after[k] == before[k]);
                    }
                }
            },
        }
        i = i + 1;
    }
    assert(column_views(columns@).take(i as int) =~= column_views(columns@));
    found
}

impl Table {
    /// Whether a table can be made from these arguments.
    pub fn accepts(columns: &Vec<Column>, total_rows: usize, start_offset: usize) -> (ok: bool)
        ensures
            ok == acceptable(column_views(columns@), total_rows as int, start_offset as int),
    {
        let ghost given = column_views(columns@);
        let ghost schema = with_id(given);
        let n = columns.len();
        let found = holds_id(columns);
        let first: usize = if found {
            1
        } else {
            0
        };
        let ghost shift: int = 1 - first;
        assert(schema.len() == n + shift);
        assert(forall|k: int| 0 <= k < n ==> #[trigger] given[k] == schema[k + shift]);
        if found {
            if !column_is_id(&columns[0]) {
                return false;
            }
            if n > MAX_COLUMNS {
                return false;
            }
        } else {
            if n >= MAX_COLUMNS {
                return false;
            }
        }
        assert(schema[0].is_id());
        let mut i: usize = first;
        while i < n
            invariant
                first <= i <= n,
                n == columns@.len(),
                given == column_views(columns@),
                schema.len() == n + shift,
                shift == 1 - first,
                schema == with_id(given),
                forall|k: int| 0 <= k < n ==> #[trigger] given[k] == schema[k + shift],
                forall|k: int| 1 <= k < i + shift ==> (#[trigger] schema[k]).is_field(),
            decreases n - i,
        {
            assert(given[i as int] == schema[i + shift]);
            if !column_is_field(&columns[i]) {
                assert(!schema[i + shift].is_field());
                return false;
            }
            i = i + 1;
        }
        let mut width: usize = ID_SIZE;
        let mut i: usize = first;
        proof {
            lemma_row_width_step(schema, 0);
            assert(schema.take(0) =~= Seq::<ColumnView>::empty());
            assert(row_width(schema.take(1)) == 16);
            if found {
                assert(given[0] == schema[0]);
            }
        }
        while i < n
            invariant
                first <= i <= n,
                n == columns@.len(),
                n + shift <= MAX_COLUMNS,
                given == column_views(columns@),
                schema.len() == n + shift,
                schema.len() >= 1,
                schema[0].is_id(),
                shift == 1 - first,
                forall|k: int| 0 <= k < n ==> #[trigger] given[k] == schema[k + shift],
                forall|k: int| 1 <= k < schema.len() ==> (#[trigger] schema[k]).is_field(),
                width == row_width(schema.take(i + shift)),
                width <= 200 * (i + shift),
            decreases n - i,
        {
            proof {
                lemma_row_width_step(schema, i + shift);
                lemma_row_width_prefix(schema, i + shift + 1);
                assert(given[i as int] == schema[i + shift]);
                assert(schema[i + shift].is_field());
            }
            width = width + columns[i].size;
            i = i + 1;
        }
        assert(schema.take(n + shift) =~= schema);
        proof {
            lemma_row_width_prefix(schema, n + shift);
        }
        if width > PAGE_SIZE {
            return false;
        }
        if total_rows > TABLE_MAX_PAGES * (PAGE_SIZE / width) {
            return false;
        }
        if start_offset < META_SIZE {
            return false;
        }
        if start_offset > usize::MAX - TABLE_MAX_PAGES * PAGE_SIZE {
            return false;
        }
        true
    }

    /// A table named `name` over `columns`, with `total_rows` rows stored
    /// from `start_offset` on in the backing file and no page in memory.
    /// The identifier column is put in front unless `columns` holds one.
    pub fn new(name: String, columns: Vec<Column>, total_rows: usize, start_offset: usize) -> (table:
        Self)
        requires
            acceptable(column_views(columns@), total_rows as int, start_offset as int),
        ensures
            table@ == (TableView {
                name: name@,
                columns: with_id(column_views(columns@)),
                total_rows: total_rows as int,
                start_offset: start_offset as int,
                pages: Seq::<Option<PageView>>::empty(),
            }),
            table@.wf(),
    {
        let has_id_column = holds_id(&columns);
        let mut columns = columns;
        if !has_id_column {
            let ghost given = column_views(columns@);
            columns.insert(
                0,
                Column::new("id".to_owned(), ID_SIZE, ColumnType::ID, DataType::UUID),
            );
            assert(column_views(columns@) =~= seq![id_column()] + given);
        }
        let table = Table {
            table_name: name,
            pages: Vec::new(),
            columns,
            total_rows,
            start_offset,
        };
        assert(table@.pages =~= Seq::<Option<PageView>>::empty());
        table
    }

    /// The table's name.
    pub fn name(&self) -> (name: &String)
        ensures
            name@ == self@.name,
    {
        &self.table_name
    }

    /// The table's schema.
    pub fn columns(&self) -> (columns: &Vec<Column>)
        ensures
            column_views(columns@) == self@.columns,
    {
        &self.columns
    }

    /// The number of rows in the table.
    pub fn total_rows(&self) -> (n: usize)
        ensures
            n == self@.total_rows,
    {
        self.total_rows
    }

    /// Where the table's rows start in the backing file.
    pub fn start_offset(&self) -> (n: usize)
        ensures
            n == self@.start_offset,
    {
        self.start_offset
    }

    /// The width of a row: the sum of the widths of the columns.
    pub fn row_size(&self) -> (size: usize)
        requires
            self@.wf(),
        ensures
            size == self@.row_size(),
            size == row_width(self@.columns),
    {
        let ghost schema = column_views(self.columns@);
        let mut size: usize = 0;
        let mut i: usize = 0;
        while i < self.columns.len()
            invariant
                i <= self.columns@.len(),
                schema == column_views(self.columns@),
                valid_schema(schema),
                size == row_width(schema.take(i as int)),
                size <= 200 * i,
            decreases self.columns@.len() - i,
        {
            proof {
                lemma_row_width_step(schema, i as int);
                lemma_row_width_prefix(schema, i + 1);
            }
            size = size + self.columns[i].size;
            i = i + 1;
        }
        assert(schema.take(i as int) =~= schema);
        size
    }

    /// Brings page `page_number` into memory if it is not there yet: read
    /// from the backing file where the table has rows on it, else empty.
    pub fn get_page(&mut self, disk: &Disk, page_number: usize)
        requires
            old(self)@.wf(),
            page_number < TABLE_MAX_PAGES,
        ensures
            final(self)@ == old(self)@.with_page(disk@, page_number as int),
            final(self)@.wf(),
    {
        while self.pages.len() <= page_number
            invariant
                page_number < TABLE_MAX_PAGES,
                self.table_name == old(self).table_name,
                self.columns == old(self).columns,
                self.total_rows == old(self).total_rows,
                self.start_offset == old(self).start_offset,
                old(self).pages@.len() <= self.pages@.len() <= TABLE_MAX_PAGES,
                self.pages@.len() <= page_number + 1 || self.pages@.len() == old(self).pages@.len(),
                self@.pages =~= old(self)@.slots(self.pages@.len() as int),
            decreases page_number + 1 - self.pages.len(),
        {
            let ghost before = self@.pages;
            self.pages.push(None);
            assert(self@.pages =~= before.push(None));
            assert(before.push(None) =~= old(self)@.slots(self.pages@.len() as int));
        }
        assert(self@.pages =~= old(self)@.slots(page_number + 1));
        assert(self@.wf());
        if self.pages[page_number].is_none() {
            proof {
                lemma_rows_per_page(self@);
            }
            let row_size = self.row_size();
            self.pages.set(page_number, Some(Page::new(row_size)));
            assert(self@.pages =~= old(self)@.slots(page_number + 1).update(
                page_number as int,
                Some(PageView::empty(row_size as int)),
            ));
            assert(page_number * (PAGE_SIZE / row_size) <= 100 * 256) by (nonlinear_arith)
                requires
                    page_number < 100,
                    PAGE_SIZE / row_size <= 256,
            ;
            if self.total_rows > page_number * (PAGE_SIZE / row_size) {
                self.fill_page_from_disk(disk, page_number);
            }
            assert(self@.pages =~= old(self)@.slots(page_number + 1).update(
                page_number as int,
                Some(old(self)@.page(disk@, page_number as int)),
            ));
        } else {
            assert(self@.pages =~= old(self)@.slots(page_number + 1).update(
                page_number as int,
                Some(old(self)@.page(disk@, page_number as int)),
            ));
        }
    }

    /// Reads page `page_number` from the backing file into its buffer in
    /// memory, and sets its next free slot after the last whole row read.
    pub fn fill_page_from_disk(&mut self, disk: &Disk, page_number: usize)
        requires
            old(self)@.wf(),
            page_number < TABLE_MAX_PAGES,
            old(self)@.resident(page_number as int),
            old(self)@.total_rows > page_number * old(self)@.rows_per_page(),
        ensures
            final(self)@ == (TableView {
                pages: old(self)@.pages.update(
                    page_number as int,
                    Some(
                        old(self)@.pages[page_number as int]->0.filled(
                            read_range(
                                disk@,
                                old(self)@.page_offset(page_number as int),
                                PAGE_SIZE as int,
                            ),
                        ),
                    ),
                ),
                ..old(self)@
            }),
            final(self)@.wf(),
    {
        let bytes = disk.read_at(self.start_offset + page_number * PAGE_SIZE, PAGE_SIZE);
        match &mut self.pages[page_number] {
            Some(page) => {
                page.fill(bytes.as_slice());
            },
            None => {},
        }
        assert(self@.pages =~= old(self)@.pages.update(
            page_number as int,
            Some(
                old(self)@.pages[page_number as int]->0.filled(
                    read_range(
                        disk@,
                        old(self)@.page_offset(page_number as int),
                        PAGE_SIZE as int,
                    ),
                ),
            ),
        ));
    }

    /// Writes the used part of page `page_index` to its place in the backing
    /// file; does nothing where the page is not in memory.
    pub fn flush_page_to_disk(&self, disk: &mut Disk, page_index: usize)
        requires
            self@.wf(),
            page_index < TABLE_MAX_PAGES,
        ensures
            final(disk)@ == if self@.resident(page_index as int) {
                write_range(
                    old(disk)@,
                    self@.page_offset(page_index as int),
                    self@.pages[page_index as int]->0.used(),
                )
            } else {
                old(disk)@
            },
    {
        if page_index >= self.pages.len() {
            return ;
        }
        match &self.pages[page_index] {
            Some(page) => {
                let bytes = page.used();
                proof {
                    lemma_rows_fit(page@.current_row, page@.row_size);
                }
                disk.write_at(self.start_offset + page_index * PAGE_SIZE, bytes);
            },
            None => {},
        }
    }
}

/// The bytes of each of a run of rows.
pub open spec fn row_views(values: Seq<&[u8]>) -> Seq<Seq<u8>> {
    values.map_values(|v: &[u8]| v@)
}

/// Bringing a page into memory changes no page as a reader finds it.
pub proof fn lemma_with_page_keeps_pages(t: TableView, disk: Seq<u8>, p: int, q: int)
    requires
        0 <= p,
    ensures
        t.with_page(disk, p).page(disk, q) == t.page(disk, q),
        t.with_page(disk, p).rows_per_page() == t.rows_per_page(),
{
}

/// Bringing a page into memory changes no row, and no later insertion.
pub proof fn lemma_with_page_keeps_rows(t: TableView, disk: Seq<u8>, p: int)
    requires
        0 <= p,
    ensures
        t.with_page(disk, p).rows(disk) == t.rows(disk),
        forall|row: Seq<u8>| #[trigger]
            t.with_page(disk, p).takes(disk, row) == t.takes(disk, row),
        forall|row: Seq<u8>|
            p == t.total_rows / t.rows_per_page() ==> #[trigger] t.with_page(disk, p).insert(
                disk,
                row,
            ) == t.insert(disk, row),
{
    let u = t.with_page(disk, p);
    assert forall|r: int| 0 <= r < t.total_rows implies u.row(disk, r) == t.row(disk, r) by {
        lemma_with_page_keeps_pages(t, disk, p, r / t.rows_per_page());
    }
    assert(u.rows(disk) =~= t.rows(disk));
    assert forall|row: Seq<u8>| #[trigger] u.takes(disk, row) == t.takes(disk, row) by {
        lemma_with_page_keeps_pages(t, disk, p, t.total_rows / t.rows_per_page());
    }
    assert forall|row: Seq<u8>| p == t.total_rows / t.rows_per_page() implies #[trigger] u.insert(
        disk,
        row,
    ) == t.insert(disk, row) by {
        lemma_with_page_keeps_pages(t, disk, p, p);
        assert(u.slots(p + 1) =~= u.pages);
        assert(u.insert(disk, row).0.pages =~= t.insert(disk, row).0.pages);
    }
}

/// Inserting rows changes neither the name nor the schema of a table.
pub proof fn lemma_insert_all_keeps(t: TableView, disk: Seq<u8>, rows: Seq<Seq<u8>>)
    ensures
        t.insert_all(disk, rows).0.name == t.name,
        t.insert_all(disk, rows).0.columns == t.columns,
        t.insert_all(disk, rows).0.start_offset == t.start_offset,
        t.insert_all(disk, rows).0.total_rows == t.total_rows + rows.len(),
    decreases rows.len(),
{
    if rows.len() > 0 {
        lemma_insert_all_keeps(t.insert(disk, rows[0]).0, t.insert(disk, rows[0]).1, rows.drop_first());
    }
}

impl Table {
    /// Appends `values`, one row each, and writes the page that takes a row
    /// to the backing file before the next row is placed.
    pub fn insert_rows(&mut self, disk: &mut Disk, values: Vec<&[u8]>) -> (result: Result<
        (),
        String,
    >)
        requires
            old(self)@.wf(),
            old(self)@.takes_all(old(disk)@, row_views(values@)),
        ensures
            result is Ok,
            (final(self)@, final(disk)@) == old(self)@.insert_all(
                old(disk)@,
                row_views(values@),
            ),
            final(self)@.wf(),
    {
        let ghost rows = row_views(values@);
        let mut i: usize = 0;
        assert(rows.skip(0) =~= rows);
        while i < values.len()
            invariant
                i <= values@.len(),
                rows == row_views(values@),
                self@.wf(),
                self@.takes_all(disk@, rows.skip(i as int)),
                self@.insert_all(disk@, rows.skip(i as int)) == old(self)@.insert_all(
                    old(disk)@,
                    rows,
                ),
            decreases values@.len() - i,
        {
            let value = values[i];
            let ghost before = self@;
            let ghost image = disk@;
            proof {
                lemma_rows_per_page(before);
                assert(rows.skip(i as int)[0] == value@);
                assert(rows.skip(i as int).drop_first() =~= rows.skip(i + 1));
                assert(before.takes(image, value@));
            }
            let row_size = self.row_size();
            let rows_per_page = PAGE_SIZE / row_size;
            let current_page = self.total_rows / rows_per_page;
            assert(current_page < TABLE_MAX_PAGES) by (nonlinear_arith)
                requires
                    current_page == self.total_rows / rows_per_page,
                    self.total_rows < TABLE_MAX_PAGES * rows_per_page,
                    rows_per_page > 0,
            ;
            self.get_page(disk, current_page);
            proof {
                lemma_with_page_keeps_pages(before, image, current_page as int, current_page as int);
            }
            let ghost mid = self@;
            let ghost loaded = mid.pages[current_page as int]->0;
            assert(loaded == before.page(image, current_page as int));
            assert(current_page as int == before.total_rows / before.rows_per_page());
            match &mut self.pages[current_page] {
                Some(page) => {
                    let _ = page.write_row(value);
                },
                None => {},
            }
            assert(self@.pages =~= mid.pages.update(
                current_page as int,
                Some(loaded.with_row(value@)),
            ));
            self.total_rows = self.total_rows + 1;
            assert(self@.pages =~= before.insert(image, value@).0.pages);
            assert(self@ == before.insert(image, value@).0);
            assert(self@.wf()) by {
                assert(current_page * rows_per_page <= before.total_rows) by (nonlinear_arith)
                    requires
                        current_page == before.total_rows / (rows_per_page as int),
                        rows_per_page > 0,
                        before.total_rows >= 0,
                ;
            }
            self.flush_page_to_disk(disk, current_page);
            i = i + 1;
        }
        assert(rows.skip(i as int) =~= Seq::<Seq<u8>>::empty());
        Ok(())
    }

    /// Whether the table has room for one more row. Brings the page that
    /// the row would go to into memory, unless the table is full.
    pub fn check_insert(&mut self, disk: &Disk) -> (result: Result<(), String>)
        requires
            old(self)@.wf(),
        ensures
            final(self)@.wf(),
            old(self)@.total_rows >= old(self)@.capacity() ==> final(self)@ == old(self)@ && (
            match result {
                Ok(_) => false,
                Err(e) => e@ == "Table full."@,
            }),
            old(self)@.total_rows < old(self)@.capacity() ==> final(self)@ == old(self)@.with_page(
                disk@,
                old(self)@.total_rows / old(self)@.rows_per_page(),
            ) && (match result {
                Ok(_) => old(self)@.page(
                    disk@,
                    old(self)@.total_rows / old(self)@.rows_per_page(),
                ).current_row < old(self)@.rows_per_page(),
                Err(e) => e@ == "Page full."@ && old(self)@.page(
                    disk@,
                    old(self)@.total_rows / old(self)@.rows_per_page(),
                ).current_row >= old(self)@.rows_per_page(),
            }),
    {
        proof {
            lemma_rows_per_page(self@);
        }
        let row_size = self.row_size();
        let rows_per_page = PAGE_SIZE / row_size;
        if self.total_rows >= TABLE_MAX_PAGES * rows_per_page {
            return Err("Table full.".to_owned());
        }
        let current_page = self.total_rows / rows_per_page;
        assert(current_page < TABLE_MAX_PAGES) by (nonlinear_arith)
            requires
                current_page == self.total_rows / rows_per_page,
                self.total_rows < TABLE_MAX_PAGES * rows_per_page,
                rows_per_page > 0,
        ;
        self.get_page(disk, current_page);
        proof {
            lemma_with_page_keeps_pages(old(self)@, disk@, current_page as int, current_page as int);
        }
        let free = match &self.pages[current_page] {
            Some(page) => page.current_row() < rows_per_page,
            None => false,
        };
        if free {
            Ok(())
        } else {
            Err("Page full.".to_owned())
        }
    }
}

/// `bytes` without its trailing zero bytes.
pub open spec fn trim_zeros(bytes: Seq<u8>) -> Seq<u8>
    decreases bytes.len(),
{
    if bytes.len() > 0 && bytes.last() == 0 {
        trim_zeros(bytes.drop_last())
    } else {
        bytes
    }
}

/// The text shown for a field. An identifier is shown in hyphenated form,
/// or as nothing where the field is not 16 bytes long; any other field is
/// cut at its trailing zero bytes and read as UTF-8, lossily.
pub open spec fn field_text(column: ColumnView, field: Seq<u8>) -> Seq<char> {
    match column.col_type {
        ColumnType::ID => if field.len() == 16 {
            hyphenated(field)
        } else {
            Seq::<char>::empty()
        },
        ColumnType::FIELD => lossy_text(trim_zeros(field)),
    }
}

/// A query for `requested` shows the column named `name`: it asks for it by
/// name, or for all columns with `*`.
pub open spec fn wants(requested: Seq<Seq<char>>, name: Seq<char>) -> bool {
    requested.contains("*"@) || requested.contains(name)
}

/// The header row of a query: the names of the columns shown, in schema
/// order.
pub open spec fn header_cells(columns: Seq<ColumnView>, requested: Seq<Seq<char>>) -> Seq<
    Seq<char>,
>
    decreases columns.len(),
{
    if columns.len() == 0 {
        Seq::<Seq<char>>::empty()
    } else if wants(requested, columns.last().name) {
        header_cells(columns.drop_last(), requested).push(columns.last().name)
    } else {
        header_cells(columns.drop_last(), requested)
    }
}

/// The cells that a query shows of one row: the text of each column shown,
/// in schema order, each read from its own slot of the row.
pub open spec fn row_cells(columns: Seq<ColumnView>, row: Seq<u8>, requested: Seq<Seq<char>>) -> Seq<
    Seq<char>,
>
    decreases columns.len(),
{
    if columns.len() == 0 {
        Seq::<Seq<char>>::empty()
    } else if wants(requested, columns.last().name) {
        row_cells(columns.drop_last(), row, requested).push(
            field_text(
                columns.last(),
                row.subrange(row_width(columns.drop_last()), row_width(columns)),
            ),
        )
    } else {
        row_cells(columns.drop_last(), row, requested)
    }
}

impl TableView {
    /// The number of pages that hold rows.
    pub open spec fn pages_in_use(self) -> int {
        (self.total_rows + self.rows_per_page() - 1) / self.rows_per_page()
    }

    /// The table with its first `n` pages in memory.
    pub open spec fn with_pages(self, disk: Seq<u8>, n: int) -> TableView
        decreases n,
    {
        if n <= 0 {
            self
        } else {
            self.with_pages(disk, n - 1).with_page(disk, n - 1)
        }
    }

    /// What a query for `requested` shows: the header row, then one row of
    /// cells for each row of the table, in insertion order.
    pub open spec fn grid(self, disk: Seq<u8>, requested: Seq<Seq<char>>) -> Seq<Seq<Seq<char>>> {
        seq![header_cells(self.columns, requested)] + Seq::new(
            self.total_rows as nat,
            |r: int| row_cells(self.columns, self.row(disk, r), requested),
        )
    }
}

/// Bringing the first pages into memory changes no page as a reader finds
/// it, and leaves the last of them in memory.
pub proof fn lemma_with_pages(t: TableView, disk: Seq<u8>, n: int, q: int)
    requires
        0 <= n,
    ensures
        t.with_pages(disk, n).page(disk, q) == t.page(disk, q),
        t.with_pages(disk, n).rows_per_page() == t.rows_per_page(),
        t.with_pages(disk, n).total_rows == t.total_rows,
        t.with_pages(disk, n).columns == t.columns,
        t.with_pages(disk, n).name == t.name,
        t.with_pages(disk, n).start_offset == t.start_offset,
        n >= 1 ==> t.with_pages(disk, n).resident(n - 1),
    decreases n,
{
    if n > 0 {
        lemma_with_pages(t, disk, n - 1, q);
        lemma_with_page_keeps_pages(t.with_pages(disk, n - 1), disk, n - 1, q);
    }
}

/// Every row of a query's output has as many cells as the header.
pub proof fn lemma_cells_match_header(
    columns: Seq<ColumnView>,
    row: Seq<u8>,
    requested: Seq<Seq<char>>,
)
    ensures
        row_cells(columns, row, requested).len() == header_cells(columns, requested).len(),
    decreases columns.len(),
{
    if columns.len() > 0 {
        lemma_cells_match_header(columns.drop_last(), row, requested);
    }
}

/// The length of `bytes` without its trailing zero bytes.
pub fn trimmed_len(bytes: &[u8]) -> (n: usize)
    ensures
        n <= bytes@.len(),
        bytes@.take(n as int) == trim_zeros(bytes@),
{
    let mut n: usize = bytes.len();
    assert(bytes@.take(n as int) =~= bytes@);
    while n > 0 && bytes[n - 1] == 0
        invariant
            n <= bytes@.len(),
            trim_zeros(bytes@.take(n as int)) == trim_zeros(bytes@),
        decreases n,
    {
        assert(bytes@.take(n as int).drop_last() =~= bytes@.take(n - 1));
        n = n - 1;
    }
    n
}

/// The text shown for `field`, the slot of a column of type `col_type`.
pub fn decode_field(column: &Column, field: &[u8]) -> (text: String)
    ensures
        text@ == field_text(column@, field@),
{
    match column.col_type {
        ColumnType::ID => {
            match uuid_text(field) {
                Some(text) => text,
                None => String::new(),
            }
        },
        ColumnType::FIELD => {
            let n = trimmed_len(field);
            let kept = slice_subrange(field, 0, n);
            assert(kept@ =~= field@.take(n as int));
            decode_lossy(kept)
        },
    }
}

/// The header row of a query for `requested` over `schema`.
pub fn header_row(schema: &Vec<Column>, requested: &Vec<String>) -> (header: Vec<String>)
    ensures
        text_views(header@) == header_cells(column_views(schema@), text_views(requested@)),
{
    let ghost columns = column_views(schema@);
    let ghost wanted = text_views(requested@);
    let all = contains_text(requested, "*");
    let mut header: Vec<String> = Vec::new();
    let mut i: usize = 0;
    assert(text_views(header@) =~= header_cells(columns.take(0), wanted));
    while i < schema.len()
        invariant
            i <= schema@.len(),
            columns == column_views(schema@),
            wanted == text_views(requested@),
            all == wanted.contains("*"@),
            text_views(header@) == header_cells(columns.take(i as int), wanted),
        decreases schema@.len() - i,
    {
        assert(columns.take(i + 1).drop_last() =~= columns.take(i as int));
        let ghost before = text_views(header@);
        if all || contains_text(requested, schema[i].name.as_str()) {
            header.push(schema[i].name.clone());
            assert(text_views(header@) =~= before.push(columns[i as int].name));
        }
        i = i + 1;
    }
    assert(columns.take(i as int) =~= columns);
    header
}

/// The cells that a query for `requested` shows of `row`.
pub fn decode_row(schema: &Vec<Column>, row: &[u8], requested: &Vec<String>) -> (cells: Vec<
    String,
>)
    requires
        valid_schema(column_views(schema@)),
        row@.len() == row_width(column_views(schema@)),
    ensures
        text_views(cells@) == row_cells(column_views(schema@), row@, text_views(requested@)),
{
    let ghost columns = column_views(schema@);
    let ghost wanted = text_views(requested@);
    let all = contains_text(requested, "*");
    let mut cells: Vec<String> = Vec::new();
    let mut offset: usize = 0;
    let mut i: usize = 0;
    assert(text_views(cells@) =~= row_cells(columns.take(0), row@, wanted));
    while i < schema.len()
        invariant
            i <= schema@.len(),
            columns == column_views(schema@),
            valid_schema(columns),
            row@.len() == row_width(columns),
            wanted == text_views(requested@),
            all == wanted.contains("*"@),
            offset == row_width(columns.take(i as int)),
            text_views(cells@) == row_cells(columns.take(i as int), row@, wanted),
        decreases schema@.len() - i,
    {
        proof {
            assert(columns.take(i + 1).drop_last() =~= columns.take(i as int));
            lemma_row_width_step(columns, i as int);
            lemma_row_width_bounds(columns, i + 1);
        }
        let end: usize = offset + schema[i].size;
        let ghost before = text_views(cells@);
        if all || contains_text(requested, schema[i].name.as_str()) {
            let field = slice_subrange(row, offset, end);
            let text = decode_field(&schema[i], field);
            cells.push(text);
            assert(text_views(cells@) =~= before.push(
                field_text(columns[i as int], row@.subrange(offset as int, end as int)),
            ));
        }
        offset = end;
        i = i + 1;
    }
    assert(columns.take(i as int) =~= columns);
    cells
}

/// The number of pages that the rows before row `r` lie on, step by step.
pub proof fn lemma_pages_touched(r: int, per_page: int)
    requires
        0 <= r,
        0 < per_page,
    ensures
        (r + per_page) / per_page == r / per_page + 1,
        r % per_page == 0 ==> (r + per_page - 1) / per_page == r / per_page,
        r % per_page != 0 ==> (r + per_page - 1) / per_page == r / per_page + 1,
        0 <= r % per_page < per_page,
        0 <= r / per_page,
{
    assert((r + per_page) / per_page == r / per_page + 1) by (nonlinear_arith)
        requires
            0 <= r,
            0 < per_page,
    ;
    assert(r % per_page == 0 ==> (r + per_page - 1) / per_page == r / per_page)
        by (nonlinear_arith)
        requires
            0 <= r,
            0 < per_page,
    ;
    assert(r % per_page != 0 ==> (r + per_page - 1) / per_page == r / per_page + 1)
        by (nonlinear_arith)
        requires
            0 <= r,
            0 < per_page,
    ;
    assert(0 <= r % per_page < per_page && 0 <= r / per_page) by (nonlinear_arith)
        requires
            0 <= r,
            0 < per_page,
    ;
}

impl Table {
    /// The grid that a query for `columns` shows: the header row, then one
    /// row of cells for each row of the table. Brings every page that holds
    /// rows into memory.
    pub fn select_rows(&mut self, disk: &Disk, columns: &Vec<String>) -> (grid: Vec<Vec<String>>)
        requires
            old(self)@.wf(),
        ensures
            grid_view(grid@) == old(self)@.grid(disk@, text_views(columns@)),
            final(self)@ == old(self)@.with_pages(disk@, old(self)@.pages_in_use()),
            final(self)@.wf(),
    {
        let ghost before = self@;
        let ghost wanted = text_views(columns@);
        proof {
            lemma_rows_per_page(before);
        }
        let row_size = self.row_size();
        let rows_per_page = PAGE_SIZE / row_size;
        let mut grid: Vec<Vec<String>> = Vec::new();
        grid.push(header_row(&self.columns, columns));
        let mut row_number: usize = 0;
        assert(grid_view(grid@) =~= seq![header_cells(before.columns, wanted)]);
        proof {
            lemma_pages_touched(0, rows_per_page as int);
        }
        while row_number < self.total_rows
            invariant
                row_number <= self.total_rows,
                before.wf(),
                before == old(self)@,
                wanted == text_views(columns@),
                self@.wf(),
                rows_per_page == before.rows_per_page(),
                row_size == before.row_size(),
                16 <= row_size,
                1 <= rows_per_page <= 256,
                self@.total_rows == before.total_rows,
                self@.columns == before.columns,
                self@ == before.with_pages(
                    disk@,
                    (row_number + rows_per_page - 1) / (rows_per_page as int),
                ),
                grid_view(grid@) == seq![header_cells(before.columns, wanted)] + Seq::new(
                    row_number as nat,
                    |r: int| row_cells(before.columns, before.row(disk@, r), wanted),
                ),
            decreases self.total_rows - row_number,
        {
            let page_number = row_number / rows_per_page;
            let row_index = row_number % rows_per_page;
            let ghost loaded = (row_number + rows_per_page - 1) / (rows_per_page as int);
            let ghost current = self@;
            proof {
                lemma_pages_touched(row_number as int, rows_per_page as int);
                lemma_with_pages(before, disk@, loaded, page_number as int);
                assert(page_number < TABLE_MAX_PAGES) by (nonlinear_arith)
                    requires
                        page_number == row_number / rows_per_page,
                        row_number < TABLE_MAX_PAGES * rows_per_page,
                        rows_per_page > 0,
                ;
            }
            self.get_page(disk, page_number);
            proof {
                lemma_with_page_keeps_pages(current, disk@, page_number as int, page_number as int);
                if loaded == page_number + 1 {
                    assert(current.slots(page_number + 1) =~= current.pages);
                    assert(self@.pages =~= current.pages);
                }
                assert(self@ == before.with_pages(disk@, page_number + 1));
                lemma_with_pages(before, disk@, page_number + 1, page_number as int);
            }
            let cells = match &self.pages[page_number] {
                Some(page) => {
                    let row = page.read_row(row_index);
                    proof {
                        lemma_rows_fit(row_index as int + 1, row_size as int);
                        lemma_rows_fit(row_index as int, row_size as int);
                        assert((row_index + 1) * row_size == row_index * row_size + row_size)
                            by (nonlinear_arith);
                    }
                    decode_row(&self.columns, row, columns)
                },
                None => Vec::new(),
            };
            let ghost shown = grid_view(grid@);
            grid.push(cells);
            row_number = row_number + 1;
            assert(grid_view(grid@) =~= shown.push(
                row_cells(before.columns, before.row(disk@, row_number - 1), wanted),
            ));
            assert(grid_view(grid@) =~= seq![header_cells(before.columns, wanted)] + Seq::new(
                row_number as nat,
                |r: int| row_cells(before.columns, before.row(disk@, r), wanted),
            ));
        }
        assert(grid_view(grid@) =~= before.grid(disk@, wanted));
        grid
    }

    /// The lines that a query for `columns` prints: the title line, then the
    /// table as `pretty_table` draws it. Brings every page that holds rows
    /// into memory.
    pub fn print_table(&mut self, disk: &Disk, columns: Vec<String>) -> (lines: Vec<String>)
        requires
            old(self)@.wf(),
        ensures
            text_views(lines@) == seq![
                title_line(old(self)@.name, old(self)@.total_rows),
            ] + table_rendering(old(self)@.grid(disk@, text_views(columns@))),
            final(self)@ == old(self)@.with_pages(disk@, old(self)@.pages_in_use()),
            final(self)@.wf(),
    {
        let grid = self.select_rows(disk, &columns);
        proof {
            let shown = old(self)@.grid(disk@, text_views(columns@));
            assert(grid_view(grid@).len() == grid@.len());
            assert(shown.len() == 1 + old(self)@.total_rows);
            assert forall|i: int| 0 <= i < grid@.len() implies (#[trigger] grid@[i])@.len()
                <= grid@[0]@.len() by {
                assert(text_views(grid@[i]@) == grid_view(grid@)[i]);
                assert(text_views(grid@[0]@) == grid_view(grid@)[0]);
                if i > 0 {
                    lemma_cells_match_header(
                        old(self)@.columns,
                        old(self)@.row(disk@, i - 1),
                        text_views(columns@),
                    );
                }
            }
            lemma_rows_per_page(old(self)@);
            lemma_pages_touched(old(self)@.total_rows, old(self)@.rows_per_page());
            lemma_with_pages(old(self)@, disk@, old(self)@.pages_in_use(), 0);
        }
        let mut lines = render_table(grid);
        let ghost drawn = text_views(lines@);
        lines.insert(0, title(self.table_name.as_str(), self.total_rows));
        assert(text_views(lines@) =~= seq![
            title_line(old(self)@.name, old(self)@.total_rows),
        ] + drawn);
        lines
    }
}

} // verus!
