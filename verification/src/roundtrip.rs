//! What is stored reads back: the text of a value through its slot, and
//! the cells of a row that an insert builds.
use vstd::prelude::*;
use vstd::utf8::{
    encode_utf8, encode_utf8_decode_utf8, encode_utf8_valid_utf8, is_ascii_chars,
    is_ascii_chars_encode_utf8,
};
use crate::ids::hyphenated;
use crate::query::{lemma_select_all, slot_of};
use crate::rows::{
    column_source, default_text, lemma_row_bytes_len, lookup, matched_values, row_bytes,
    slot_bytes,
};
use crate::table::{
    lemma_row_width_bounds, lemma_row_width_step, row_cells, trim_zeros, ColumnView, DataType,
};
use crate::text::lossy_text;

verus! {

/// Bytes that fit a slot and do not end in a zero byte.
pub open spec fn fits_slot(bytes: Seq<u8>, size: int) -> bool {
    bytes.len() <= size && (bytes.len() == 0 || bytes.last() != 0)
}

/// The value that an insert stores in a field: the one it gives for the
/// field's name, else the default of the field's type.
pub open spec fn value_for(column: ColumnView, pairs: Seq<(Seq<char>, Seq<char>)>) -> Seq<char> {
    match lookup(pairs, column.name) {
        Some(value) => value,
        None => default_text(column.data_type),
    }
}

/// A schema that starts with its only identifier column.
pub open spec fn id_then_fields(columns: Seq<ColumnView>) -> bool {
    &&& columns.len() >= 1
    &&& columns[0].is_id()
    &&& forall|i: int| 1 <= i < columns.len() ==> (#[trigger] columns[i]).is_field()
}

/// Cutting the trailing zeros off a slot gives back the bytes that were
/// stored in it, where they fit and do not end in a zero byte.
pub proof fn lemma_trim_padding(bytes: Seq<u8>, size: int)
    requires
        fits_slot(bytes, size),
    ensures
        trim_zeros(slot_bytes(bytes, size)) == bytes,
    decreases size - bytes.len(),
{
    let slot = slot_bytes(bytes, size);
    if bytes.len() == size {
        assert(slot =~= bytes);
    } else {
        assert(slot.last() == 0);
        assert(slot.drop_last() =~= slot_bytes(bytes, size - 1));
        lemma_trim_padding(bytes, size - 1);
    }
}

/// A value longer than its column is cut to the column's width: the slot
/// holds its first bytes and nothing else.
pub proof fn lemma_long_value_is_cut(value: Seq<u8>, size: int)
    requires
        0 <= size < value.len(),
    ensures
        slot_bytes(value, size) == value.take(size),
{
    assert(slot_bytes(value, size) =~= value.take(size));
}

/// A text whose UTF-8 bytes fit its slot and do not end in a zero byte
/// reads back from the slot as it was stored.
pub proof fn lemma_stored_text_reads_back(value: Seq<char>, size: int)
    requires
        fits_slot(encode_utf8(value), size),
    ensures
        lossy_text(trim_zeros(slot_bytes(encode_utf8(value), size))) == value,
{
    lemma_trim_padding(encode_utf8(value), size);
    encode_utf8_valid_utf8(value);
    encode_utf8_decode_utf8(value);
}

/// The default of each type reads back from a field of that type as it
/// is: `0` for an integer, nothing for a string.
pub proof fn lemma_default_reads_back(column: ColumnView)
    requires
        column.is_field(),
    ensures
        lossy_text(trim_zeros(slot_bytes(encode_utf8(default_text(column.data_type)), column.size)))
            == default_text(column.data_type),
        default_text(DataType::INT) == seq!['0'],
        default_text(DataType::STRING) == Seq::<char>::empty(),
{
    reveal_strlit("0");
    reveal_strlit("");
    assert("0"@ =~= seq!['0']);
    assert(""@ =~= Seq::<char>::empty());
    let text = default_text(column.data_type);
    assert(is_ascii_chars(text));
    is_ascii_chars_encode_utf8(text);
    if text.len() > 0 {
        assert(text[0] == '0');
        assert(encode_utf8(text)[0] == '0' as u8);
        assert(encode_utf8(text).last() == encode_utf8(text)[0]);
    }
    lemma_stored_text_reads_back(text, column.size);
}

/// The slot of column `k` in a row that an insert builds holds the source
/// of that column, cut or zero-padded to the column's width.
pub proof fn lemma_row_slot(
    columns: Seq<ColumnView>,
    id: Seq<u8>,
    values: Seq<Seq<char>>,
    k: int,
)
    requires
        id_then_fields(columns),
        0 <= k < columns.len(),
    ensures
        slot_of(columns, row_bytes(columns, id, values), k) == slot_bytes(
            column_source(k, id, values),
            columns[k].size,
        ),
    decreases columns.len(),
{
    let n = columns.len() - 1;
    let front = columns.drop_last();
    let row = row_bytes(columns, id, values);
    let head = row_bytes(front, id, values);
    let tail = slot_bytes(column_source(n, id, values), columns.last().size);
    assert(columns.take(n) =~= front);
    assert(columns.take(n + 1) =~= columns);
    assert forall|i: int| 0 <= i < front.len() implies (#[trigger] front[i]).size >= 0 by {
        assert(front[i] == columns[i]);
        if i >= 1 {
            assert(columns[i].is_field());
        }
    }
    lemma_row_bytes_len(front, id, values);
    if k == n {
        assert(slot_of(columns, row, k) =~= tail);
    } else {
        assert(front[0] == columns[0]);
        assert forall|i: int| 1 <= i < front.len() implies (#[trigger] front[i]).is_field() by {
            assert(front[i] == columns[i]);
        }
        lemma_row_slot(front, id, values, k);
        assert(front.take(k) =~= columns.take(k));
        assert(front.take(k + 1) =~= columns.take(k + 1));
        lemma_row_width_bounds(front, k);
        lemma_row_width_bounds(front, k + 1);
        lemma_row_width_step(front, k);
        assert(front[k].size >= 0);
        assert(slot_of(columns, row, k) =~= slot_of(front, head, k));
    }
}

/// An insert gives one value for each field, in schema order: value
/// `k - 1` is that of column `k`.
pub proof fn lemma_matched_value(
    columns: Seq<ColumnView>,
    pairs: Seq<(Seq<char>, Seq<char>)>,
    k: int,
)
    requires
        id_then_fields(columns),
        1 <= k < columns.len(),
    ensures
        matched_values(columns, pairs).len() == columns.len() - 1,
        matched_values(columns, pairs)[k - 1] == value_for(columns[k], pairs),
    decreases columns.len(),
{
    let front = columns.drop_last();
    let n = columns.len() - 1;
    assert(front[0] == columns[0]);
    assert forall|i: int| 1 <= i < front.len() implies (#[trigger] front[i]).is_field() by {
        assert(front[i] == columns[i]);
    }
    crate::rows::lemma_matched_values_len(front, pairs);
    crate::rows::lemma_matched_values_len(columns, pairs);
    assert(columns.last() == columns[n]);
    assert(columns[n].is_field());
    if k < n {
        lemma_matched_value(front, pairs, k);
        assert(front[k] == columns[k]);
    }
}

/// What a query for `*` shows of the row that an insert builds: the
/// identifier in hyphenated form, and for every field the text read from
/// the slot that holds the UTF-8 bytes of its value, cut to the field's
/// width. The value is the one that the insert gives for the field's name,
/// else the default of the field's type.
pub proof fn lemma_insert_shows(
    columns: Seq<ColumnView>,
    id: Seq<u8>,
    pairs: Seq<(Seq<char>, Seq<char>)>,
    requested: Seq<Seq<char>>,
    k: int,
)
    requires
        id_then_fields(columns),
        id.len() == 16,
        requested.contains("*"@),
        0 <= k < columns.len(),
    ensures
        row_cells(
            columns,
            row_bytes(columns, id, matched_values(columns, pairs)),
            requested,
        ).len() == columns.len(),
        row_cells(columns, row_bytes(columns, id, matched_values(columns, pairs)), requested)[k]
            == if k == 0 {
            hyphenated(id)
        } else {
            lossy_text(
                trim_zeros(slot_bytes(encode_utf8(value_for(columns[k], pairs)), columns[k].size)),
            )
        },
{
    let values = matched_values(columns, pairs);
    let row = row_bytes(columns, id, values);
    lemma_select_all(columns, row, requested);
    lemma_row_slot(columns, id, values, k);
    if k == 0 {
        assert(slot_bytes(id, 16) =~= id);
    } else {
        lemma_matched_value(columns, pairs, k);
        assert(columns[k].is_field());
    }
}

/// A field whose value fits its slot and does not end in a zero byte is
/// shown as the insert gave it; a field that the insert does not name is
/// shown as the default of its type.
pub proof fn lemma_insert_shows_values(
    columns: Seq<ColumnView>,
    id: Seq<u8>,
    pairs: Seq<(Seq<char>, Seq<char>)>,
    requested: Seq<Seq<char>>,
    k: int,
)
    requires
        id_then_fields(columns),
        id.len() == 16,
        requested.contains("*"@),
        1 <= k < columns.len(),
    ensures
        match lookup(pairs, columns[k].name) {
            Some(value) => fits_slot(encode_utf8(value), columns[k].size) ==> row_cells(
                columns,
                row_bytes(columns, id, matched_values(columns, pairs)),
                requested,
            )[k] == value,
            None => row_cells(
                columns,
                row_bytes(columns, id, matched_values(columns, pairs)),
                requested,
            )[k] == default_text(columns[k].data_type),
        },
{
    lemma_insert_shows(columns, id, pairs, requested, k);
    assert(columns[k].is_field());
    match lookup(pairs, columns[k].name) {
        Some(value) => {
            if fits_slot(encode_utf8(value), columns[k].size) {
                lemma_stored_text_reads_back(value, columns[k].size);
            }
        },
        None => {
            lemma_default_reads_back(columns[k]);
        },
    }
}

} // verus!
