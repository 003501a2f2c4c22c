//! The catalog's format in the backing file: one entry for each table, with
//! its name, column count, row count, data offset and columns.
use vstd::prelude::*;
use vstd::bytes::{
    spec_u16_from_le_bytes, spec_u16_to_le_bytes, spec_u64_from_le_bytes, spec_u64_to_le_bytes,
    u16_from_le_bytes, u16_to_le_bytes, u64_from_le_bytes, u64_to_le_bytes,
};
use vstd::slice::slice_subrange;
use vstd::utf8::encode_utf8;
use crate::rows::{push_slot, slot_bytes};
use crate::table::{
    column_views, lemma_rows_per_page, trim_zeros, trimmed_len, Column, ColumnType, ColumnView,
    DataType, Table, TableView, ID_SIZE, INT_SIZE, META_SIZE, STRING_SIZE,
};
use crate::text::{decode_lossy, lossy_text};

verus! {

/// Size in bytes of a stored name.
pub const NAME_SIZE: usize = 32;

/// Size in bytes of a table entry before its columns.
pub const TABLE_ENTRY_SIZE: usize = 43;

/// Size in bytes of a column entry.
pub const COLUMN_ENTRY_SIZE: usize = 33;

/// A name as stored: its UTF-8 bytes, cut or zero-padded to 32 bytes.
pub open spec fn name_field(name: Seq<char>) -> Seq<u8> {
    slot_bytes(encode_utf8(name), NAME_SIZE as int)
}

/// The tag stored for a data type.
pub open spec fn type_tag(data_type: DataType) -> u8 {
    match data_type {
        DataType::UUID => 0,
        DataType::STRING => 1,
        DataType::INT => 2,
    }
}

/// A column as stored: its name, then the tag of its data type.
pub open spec fn column_entry(column: ColumnView) -> Seq<u8> {
    name_field(column.name).push(type_tag(column.data_type))
}

/// The entries of a run of columns, one after the other.
pub open spec fn column_entries(columns: Seq<ColumnView>) -> Seq<u8>
    decreases columns.len(),
{
    if columns.len() == 0 {
        Seq::<u8>::empty()
    } else {
        column_entries(columns.drop_last()) + column_entry(columns.last())
    }
}

/// A table as stored: name, column count, row count in 2 bytes and data
/// offset in 8 bytes, both little-endian, then the columns.
pub open spec fn table_entry(table: TableView) -> Seq<u8> {
    name_field(table.name) + seq![table.columns.len() as u8] + spec_u16_to_le_bytes(
        table.total_rows as u16,
    ) + spec_u64_to_le_bytes(table.start_offset as u64) + column_entries(table.columns)
}

/// The length of the entry of a table with `columns` columns.
pub open spec fn entry_len_of(columns: int) -> int {
    TABLE_ENTRY_SIZE as int + COLUMN_ENTRY_SIZE as int * columns
}

/// The length of a table's entry.
pub open spec fn entry_len(table: TableView) -> int {
    entry_len_of(table.columns.len() as int)
}

/// The name read from a stored name: its bytes up to the trailing zeros,
/// read as UTF-8, lossily.
pub open spec fn stored_name(field: Seq<u8>) -> Seq<char> {
    lossy_text(trim_zeros(field))
}

/// The column read from the entry at `at`, if its tag is a known one. The
/// tag fixes size and kind: 0 gives the identifier, 1 a string field, 2 an
/// integer field.
pub open spec fn stored_column(header: Seq<u8>, at: int) -> Option<ColumnView> {
    let name = stored_name(header.subrange(at, at + NAME_SIZE as int));
    let tag = header[at + NAME_SIZE as int];
    if tag == 0 {
        Some(ColumnView { name, size: 16, col_type: ColumnType::ID, data_type: DataType::UUID })
    } else if tag == 1 {
        Some(
            ColumnView {
                name,
                size: 200,
                col_type: ColumnType::FIELD,
                data_type: DataType::STRING,
            },
        )
    } else if tag == 2 {
        Some(ColumnView { name, size: 4, col_type: ColumnType::FIELD, data_type: DataType::INT })
    } else {
        None
    }
}

/// The first `count` columns read from the entries that start at `offset`,
/// or the error of the first entry that cannot be read: it runs past the
/// end of the header, or its tag is unknown.
pub open spec fn stored_columns(header: Seq<u8>, offset: int, count: int) -> Result<
    Seq<ColumnView>,
    Seq<char>,
>
    decreases count,
{
    if count <= 0 {
        Ok(Seq::<ColumnView>::empty())
    } else {
        match stored_columns(header, offset, count - 1) {
            Err(e) => Err(e),
            Ok(columns) => {
                let at = offset + COLUMN_ENTRY_SIZE as int * (count - 1);
                if at + COLUMN_ENTRY_SIZE as int > header.len() {
                    Err("Invalid metadata"@)
                } else {
                    match stored_column(header, at) {
                        None => Err("Invalid column type"@),
                        Some(column) => Ok(columns.push(column)),
                    }
                }
            },
        }
    }
}

/// What a table entry holds.
pub ghost struct StoredTable {
    pub name: Seq<char>,
    pub columns: Seq<ColumnView>,
    pub total_rows: int,
    pub start_offset: int,
}

/// The table entry read at `offset`, or the error that reading it gives.
pub open spec fn stored_table(header: Seq<u8>, offset: int) -> Result<StoredTable, Seq<char>> {
    if offset + TABLE_ENTRY_SIZE as int > header.len() {
        Err("Invalid metadata"@)
    } else {
        match stored_columns(
            header,
            offset + TABLE_ENTRY_SIZE as int,
            header[offset + NAME_SIZE as int] as int,
        ) {
            Err(e) => Err(e),
            Ok(columns) => Ok(
                StoredTable {
                    name: stored_name(header.subrange(offset, offset + NAME_SIZE as int)),
                    columns,
                    total_rows: spec_u16_from_le_bytes(header.subrange(offset + 33, offset + 35))
                        as int,
                    start_offset: spec_u64_from_le_bytes(
                        header.subrange(offset + 35, offset + 43),
                    ) as int,
                },
            ),
        }
    }
}

/// A table entry read from the header.
#[derive(Debug)]
pub struct TableEntry {
    pub name: String,
    pub columns: Vec<Column>,
    pub total_rows: u16,
    pub start_offset: u64,
}

impl View for TableEntry {
    type V = StoredTable;

    open spec fn view(&self) -> StoredTable {
        StoredTable {
            name: self.name@,
            columns: column_views(self.columns@),
            total_rows: self.total_rows as int,
            start_offset: self.start_offset as int,
        }
    }
}

/// The tag stored for `data_type`.
pub fn data_type_tag(data_type: DataType) -> (tag: u8)
    ensures
        tag == type_tag(data_type),
{
    match data_type {
        DataType::UUID => 0,
        DataType::STRING => 1,
        DataType::INT => 2,
    }
}

/// Reads the name stored in the 32 bytes at `offset`.
pub fn read_name(header: &[u8], offset: usize) -> (name: String)
    requires
        offset + NAME_SIZE <= header@.len() <= META_SIZE,
    ensures
        name@ == stored_name(header@.subrange(offset as int, offset + NAME_SIZE as int)),
{
    let field = slice_subrange(header, offset, offset + NAME_SIZE);
    let n = trimmed_len(field);
    let kept = slice_subrange(field, 0, n);
    assert(kept@ =~= field@.take(n as int));
    decode_lossy(kept)
}

/// Reads the column entry at `offset`.
pub fn read_column(header: &[u8], offset: usize) -> (result: Result<Column, String>)
    requires
        offset + COLUMN_ENTRY_SIZE <= header@.len() <= META_SIZE,
    ensures
        match result {
            Ok(column) => stored_column(header@, offset as int) == Some(column@),
            Err(e) => stored_column(header@, offset as int) is None && e@
                == "Invalid column type"@,
        },
{
    let name = read_name(header, offset);
    let tag = header[offset + NAME_SIZE];
    if tag == 0 {
        Ok(Column { name, size: ID_SIZE, col_type: ColumnType::ID, data_type: DataType::UUID })
    } else if tag == 1 {
        Ok(
            Column {
                name,
                size: STRING_SIZE,
                col_type: ColumnType::FIELD,
                data_type: DataType::STRING,
            },
        )
    } else if tag == 2 {
        Ok(Column { name, size: INT_SIZE, col_type: ColumnType::FIELD, data_type: DataType::INT })
    } else {
        Err("Invalid column type".to_owned())
    }
}

/// Reads `count` column entries from `offset` on.
pub fn read_columns(header: &[u8], offset: usize, count: u8) -> (result: Result<
    Vec<Column>,
    String,
>)
    requires
        offset <= header@.len() <= META_SIZE,
    ensures
        match result {
            Ok(columns) => stored_columns(header@, offset as int, count as int) == Ok::<
                Seq<ColumnView>,
                Seq<char>,
            >(column_views(columns@)),
            Err(e) => stored_columns(header@, offset as int, count as int) == Err::<
                Seq<ColumnView>,
                Seq<char>,
            >(e@),
        },
{
    let mut columns: Vec<Column> = Vec::new();
    let mut k: u8 = 0;
    assert(column_views(columns@) =~= Seq::<ColumnView>::empty());
    while k < count
        invariant
            k <= count,
            offset <= header@.len() <= META_SIZE,
            stored_columns(header@, offset as int, k as int) == Ok::<Seq<ColumnView>, Seq<char>>(
                column_views(columns@),
            ),
        decreases count - k,
    {
        let at: usize = offset + COLUMN_ENTRY_SIZE * (k as usize);
        let ghost before = column_views(columns@);
        if at + COLUMN_ENTRY_SIZE > header.len() {
            proof {
                lemma_stored_columns_error(header@, offset as int, k as int + 1, count as int);
            }
            return Err("Invalid metadata".to_owned());
        }
        match read_column(header, at) {
            Ok(column) => {
                columns.push(column);
                assert(column_views(columns@) =~= before.push(column@));
            },
            Err(e) => {
                proof {
                    lemma_stored_columns_error(header@, offset as int, k as int + 1, count as int);
                }
                return Err(e);
            },
        }
        k = k + 1;
    }
    Ok(columns)
}

/// An error in the first `k` columns is the error of any longer run.
pub proof fn lemma_stored_columns_error(header: Seq<u8>, offset: int, k: int, count: int)
    requires
        0 <= k <= count,
        stored_columns(header, offset, k) is Err,
    ensures
        stored_columns(header, offset, count) == stored_columns(header, offset, k),
    decreases count - k,
{
    if k < count {
        lemma_stored_columns_error(header, offset, k, count - 1);
    }
}

/// Columns that were read lie within the header, one for each entry.
pub proof fn lemma_stored_columns_ok(header: Seq<u8>, offset: int, count: int)
    requires
        0 <= count,
        offset <= header.len(),
        stored_columns(header, offset, count) is Ok,
    ensures
        stored_columns(header, offset, count)->Ok_0.len() == count,
        offset + COLUMN_ENTRY_SIZE as int * count <= header.len(),
    decreases count,
{
    if count > 0 {
        lemma_stored_columns_ok(header, offset, count - 1);
    }
}

/// Reads the table entry at `offset`.
pub fn read_table(header: &[u8], offset: usize) -> (result: Result<TableEntry, String>)
    requires
        offset <= header@.len() <= META_SIZE,
    ensures
        match result {
            Ok(entry) => stored_table(header@, offset as int) == Ok::<StoredTable, Seq<char>>(
                entry@,
            ) && offset + entry_len_of(entry@.columns.len() as int) <= header@.len()
                && entry@.columns.len() <= 255,
            Err(e) => stored_table(header@, offset as int) == Err::<StoredTable, Seq<char>>(e@),
        },
{
    if offset + TABLE_ENTRY_SIZE > header.len() {
        return Err("Invalid metadata".to_owned());
    }
    proof {
        if stored_columns(
            header@,
            offset + TABLE_ENTRY_SIZE as int,
            header@[offset + NAME_SIZE as int] as int,
        ) is Ok {
            lemma_stored_columns_ok(
                header@,
                offset + TABLE_ENTRY_SIZE as int,
                header@[offset + NAME_SIZE as int] as int,
            );
        }
    }
    let name = read_name(header, offset);
    let count: u8 = header[offset + NAME_SIZE];
    let total_rows = u16_from_le_bytes(slice_subrange(header, offset + 33, offset + 35));
    let start_offset = u64_from_le_bytes(slice_subrange(header, offset + 35, offset + 43));
    match read_columns(header, offset + TABLE_ENTRY_SIZE, count) {
        Ok(columns) => Ok(TableEntry { name, columns, total_rows, start_offset }),
        Err(e) => Err(e),
    }
}

/// The entries of a run of columns take 33 bytes for each column.
pub proof fn lemma_column_entries_len(columns: Seq<ColumnView>)
    ensures
        column_entries(columns).len() == COLUMN_ENTRY_SIZE as int * columns.len(),
    decreases columns.len(),
{
    if columns.len() > 0 {
        lemma_column_entries_len(columns.drop_last());
    }
}

impl Table {
    /// This table's entry in the catalog.
    pub fn get_table_meta(&self) -> (meta: Vec<u8>)
        requires
            self@.wf(),
        ensures
            meta@ == table_entry(self@),
            meta@.len() == entry_len(self@),
    {
        let schema = self.columns();
        let ghost columns = column_views(schema@);
        proof {
            lemma_rows_per_page(self@);
        }
        let mut buff: Vec<u8> = Vec::new();
        push_slot(&mut buff, self.name().as_str().as_bytes(), NAME_SIZE);
        buff.push(schema.len() as u8);
        let mut rows = u16_to_le_bytes(self.total_rows() as u16);
        buff.append(&mut rows);
        let mut start = u64_to_le_bytes(self.start_offset() as u64);
        buff.append(&mut start);
        let ghost head = buff@;
        assert(head =~= name_field(self@.name) + seq![self@.columns.len() as u8]
            + spec_u16_to_le_bytes(self@.total_rows as u16) + spec_u64_to_le_bytes(
            self@.start_offset as u64,
        ));
        let mut i: usize = 0;
        assert(buff@ =~= head + column_entries(columns.take(0)));
        while i < schema.len()
            invariant
                i <= schema@.len(),
                columns == column_views(schema@),
                buff@ == head + column_entries(columns.take(i as int)),
            decreases schema@.len() - i,
        {
            assert(columns.take(i + 1).drop_last() =~= columns.take(i as int));
            push_slot(&mut buff, schema[i].name.as_str().as_bytes(), NAME_SIZE);
            buff.push(data_type_tag(schema[i].data_type));
            i = i + 1;
            assert(buff@ =~= head + column_entries(columns.take(i as int)));
        }
        proof {
            assert(columns.take(i as int) =~= columns);
            lemma_column_entries_len(columns);
        }
        buff
    }
}

} // verus!
