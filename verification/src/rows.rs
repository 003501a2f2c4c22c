//! Building the bytes of a row from the values of an insert.
use vstd::prelude::*;
use vstd::utf8::encode_utf8;
use crate::ids::{fresh_id, version_7};
use crate::table::{column_views, row_width, ColumnType, ColumnView, DataType, Table};
use crate::text::text_views;

verus! {

/// `value` cut or zero-padded to exactly `size` bytes.
pub open spec fn slot_bytes(value: Seq<u8>, size: int) -> Seq<u8> {
    Seq::new(
        size as nat,
        |i: int|
            if i < value.len() {
                value[i]
            } else {
                0u8
            },
    )
}

/// The bytes that go to column `k` of a new row: the identifier for the
/// first column, the UTF-8 bytes of value `k - 1` for a later one, and
/// nothing where no such value is given.
pub open spec fn column_source(k: int, id: Seq<u8>, values: Seq<Seq<char>>) -> Seq<u8> {
    if k == 0 {
        id
    } else if k - 1 < values.len() {
        encode_utf8(values[k - 1])
    } else {
        Seq::<u8>::empty()
    }
}

/// The bytes of a new row: for each column in order, its source cut or
/// zero-padded to the column's width.
pub open spec fn row_bytes(columns: Seq<ColumnView>, id: Seq<u8>, values: Seq<Seq<char>>) -> Seq<u8>
    decreases columns.len(),
{
    if columns.len() == 0 {
        Seq::<u8>::empty()
    } else {
        row_bytes(columns.drop_last(), id, values) + slot_bytes(
            column_source(columns.len() - 1, id, values),
            columns.last().size,
        )
    }
}

/// The views of a run of pairs of strings.
pub open spec fn pair_views(pairs: Seq<(String, String)>) -> Seq<(Seq<char>, Seq<char>)> {
    pairs.map_values(|p: (String, String)| (p.0@, p.1@))
}

/// The value that `pairs` gives for `key`: that of the last pair with this
/// key, as in a map filled pair by pair.
pub open spec fn lookup(pairs: Seq<(Seq<char>, Seq<char>)>, key: Seq<char>) -> Option<Seq<char>>
    decreases pairs.len(),
{
    if pairs.len() == 0 {
        None
    } else if pairs.last().0 == key {
        Some(pairs.last().1)
    } else {
        lookup(pairs.drop_last(), key)
    }
}

/// The text stored for a field that an insert does not name.
pub open spec fn default_text(data_type: DataType) -> Seq<char> {
    match data_type {
        DataType::INT => "0"@,
        _ => ""@,
    }
}

/// The values of a new row, one for each field in schema order: the value
/// that the insert gives for the field's name, else the type's default.
/// Identifier columns have no value here.
pub open spec fn matched_values(columns: Seq<ColumnView>, pairs: Seq<(Seq<char>, Seq<char>)>) -> Seq<
    Seq<char>,
>
    decreases columns.len(),
{
    if columns.len() == 0 {
        Seq::<Seq<char>>::empty()
    } else {
        match columns.last().col_type {
            ColumnType::ID => matched_values(columns.drop_last(), pairs),
            ColumnType::FIELD => matched_values(columns.drop_last(), pairs).push(
                match lookup(pairs, columns.last().name) {
                    Some(value) => value,
                    None => default_text(columns.last().data_type),
                },
            ),
        }
    }
}

/// The length of a row is the width of its schema.
pub proof fn lemma_row_bytes_len(columns: Seq<ColumnView>, id: Seq<u8>, values: Seq<Seq<char>>)
    requires
        forall|i: int| 0 <= i < columns.len() ==> (#[trigger] columns[i]).size >= 0,
    ensures
        row_bytes(columns, id, values).len() == row_width(columns),
    decreases columns.len(),
{
    if columns.len() > 0 {
        assert forall|i: int| 0 <= i < columns.drop_last().len() implies (
        #[trigger] columns.drop_last()[i]).size >= 0 by {
            assert(columns.drop_last()[i] == columns[i]);
        }
        lemma_row_bytes_len(columns.drop_last(), id, values);
    }
}

/// A schema that starts with its only identifier column gets one value
/// for each column after the first.
pub proof fn lemma_matched_values_len(
    columns: Seq<ColumnView>,
    pairs: Seq<(Seq<char>, Seq<char>)>,
)
    requires
        columns.len() >= 1,
        columns[0].is_id(),
        forall|i: int| 1 <= i < columns.len() ==> (#[trigger] columns[i]).is_field(),
    ensures
        matched_values(columns, pairs).len() == columns.len() - 1,
    decreases columns.len(),
{
    if columns.len() > 1 {
        let front = columns.drop_last();
        assert(front[0] == columns[0]);
        assert forall|i: int| 1 <= i < front.len() implies (#[trigger] front[i]).is_field() by {
            assert(front[i] == columns[i]);
        }
        lemma_matched_values_len(front, pairs);
        assert(columns.last() == columns[columns.len() - 1]);
        assert(columns[columns.len() - 1].is_field());
    } else {
        assert(columns.last() == columns[0]);
        assert(columns.drop_last() =~= Seq::<ColumnView>::empty());
        assert(matched_values(columns.drop_last(), pairs) =~= Seq::<Seq<char>>::empty());
    }
}

/// Appends `value`, cut or zero-padded to `size` bytes, to `out`.
pub fn push_slot(out: &mut Vec<u8>, value: &[u8], size: usize)
    ensures
        final(out)@ == old(out)@ + slot_bytes(value@, size as int),
{
    let mut i: usize = 0;
    while i < size
        invariant
            i <= size,
            out@ == old(out)@ + slot_bytes(value@, i as int),
        decreases size - i,
    {
        let byte: u8 = if i < value.len() {
            value[i]
        } else {
            0u8
        };
        out.push(byte);
        i = i + 1;
        assert(out@ =~= old(out)@ + slot_bytes(value@, i as int));
    }
}

/// The value that `pairs` gives for `key`, if any.
pub fn lookup_value(pairs: &Vec<(String, String)>, key: &str) -> (value: Option<String>)
    ensures
        match value {
            Some(v) => lookup(pair_views(pairs@), key@) == Some(v@),
            None => lookup(pair_views(pairs@), key@) is None,
        },
{
    let ghost all = pair_views(pairs@);
    let mut i: usize = pairs.len();
    assert(all.take(i as int) =~= all);
    while i > 0
        invariant
            i <= pairs@.len(),
            all == pair_views(pairs@),
            lookup(all, key@) == lookup(all.take(i as int), key@),
        decreases i,
    {
        assert(all.take(i as int).drop_last() =~= all.take(i - 1));
        if pairs[i - 1].0.as_str().eq(key) {
            return Some(pairs[i - 1].1.clone());
        }
        i = i - 1;
    }
    None
}

impl Table {
    /// The bytes of a row with identifier `id` and the values `args`, which
    /// go to the columns after the identifier in order. A value longer than
    /// its column is cut to the column's width, without notice.
    pub fn build_row(&self, id: &[u8], args: &Vec<String>) -> (row: Vec<u8>)
        requires
            self@.wf(),
            args@.len() < self@.columns.len(),
        ensures
            row@ == row_bytes(self@.columns, id@, text_views(args@)),
            row@.len() == self@.row_size(),
    {
        let schema = self.columns();
        let ghost columns = column_views(schema@);
        let ghost values = text_views(args@);
        let mut row: Vec<u8> = Vec::new();
        let mut k: usize = 0;
        assert(row@ =~= row_bytes(columns.take(0), id@, values));
        while k < schema.len()
            invariant
                k <= schema@.len(),
                columns == column_views(schema@),
                values == text_views(args@),
                row@ == row_bytes(columns.take(k as int), id@, values),
            decreases schema@.len() - k,
        {
            assert(columns.take(k + 1).drop_last() =~= columns.take(k as int));
            if k == 0 {
                push_slot(&mut row, id, schema[k].size);
            } else if k - 1 < args.len() {
                push_slot(&mut row, args[k - 1].as_str().as_bytes(), schema[k].size);
            } else {
                let nothing: Vec<u8> = Vec::new();
                push_slot(&mut row, nothing.as_slice(), schema[k].size);
            }
            k = k + 1;
        }
        proof {
            assert(columns.take(k as int) =~= columns);
            lemma_row_bytes_len(columns, id@, values);
        }
        row
    }

    /// The bytes of a new row with a fresh identifier and the values `args`,
    /// which go to the columns after the identifier in order.
    pub fn construct_row(&self, args: Vec<String>) -> (row: Vec<u8>)
        requires
            self@.wf(),
            args@.len() < self@.columns.len(),
        ensures
            exists|id: Seq<u8>|
                version_7(id) && row@ == #[trigger] row_bytes(
                    self@.columns,
                    id,
                    text_views(args@),
                ),
            row@.len() == self@.row_size(),
    {
        let id = fresh_id();
        self.build_row(id.as_slice(), &args)
    }

    /// The values of a new row, one for each field in schema order: the
    /// value that `column_map` gives for the field's name, else the default
    /// of the field's type.
    pub fn match_columns(&self, column_map: Vec<(String, String)>) -> (row_values: Vec<String>)
        ensures
            text_views(row_values@) == matched_values(self@.columns, pair_views(column_map@)),
    {
        let schema = self.columns();
        let ghost columns = column_views(schema@);
        let ghost pairs = pair_views(column_map@);
        let mut row_values: Vec<String> = Vec::new();
        let mut i: usize = 0;
        assert(text_views(row_values@) =~= matched_values(columns.take(0), pairs));
        while i < schema.len()
            invariant
                i <= schema@.len(),
                columns == column_views(schema@),
                pairs == pair_views(column_map@),
                text_views(row_values@) == matched_values(columns.take(i as int), pairs),
            decreases schema@.len() - i,
        {
            assert(columns.take(i + 1).drop_last() =~= columns.take(i as int));
            let ghost before = text_views(row_values@);
            match schema[i].col_type {
                ColumnType::FIELD => {
                    let value = match lookup_value(&column_map, schema[i].name.as_str()) {
                        Some(value) => value,
                        None => match schema[i].data_type {
                            DataType::INT => "0".to_owned(),
                            _ => "".to_owned(),
                        },
                    };
                    row_values.push(value);
                    assert(text_views(row_values@) =~= before.push(value@));
                },
                ColumnType::ID => {},
            }
            i = i + 1;
        }
        assert(columns.take(i as int) =~= columns);
        row_values
    }
}

} // verus!
