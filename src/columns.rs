use vstd::prelude::*;
use crate::error::ConvertError;
use crate::types::{
    fits_type, physical_of, row_fits, row_view, rows_view, ColumnDefinition, DataType, FieldModel,
    FieldValue, PhysicalType, Row,
};

verus! {

/// One typed column of a batch: a value or an absent entry per row, in row order.
///
/// Floats are held as the literal text they were read from.
pub enum ColumnData {
    Utf8(Vec<Option<String>>),
    Int64(Vec<Option<i64>>),
    Float64(Vec<Option<String>>),
    Boolean(Vec<Option<bool>>),
    Date32(Vec<Option<i32>>),
    TimestampNanos(Vec<Option<i64>>),
}

/// What a column holds: its storage type and the value of each row.
pub struct ColumnModel {
    pub physical: PhysicalType,
    pub cells: Seq<FieldModel>,
}

pub open spec fn text_cell(o: Option<String>) -> FieldModel {
    match o {
        Some(s) => FieldModel::Str(s@),
        None => FieldModel::Null,
    }
}

pub open spec fn float_cell(o: Option<String>) -> FieldModel {
    match o {
        Some(s) => FieldModel::Float(s@),
        None => FieldModel::Null,
    }
}

pub open spec fn int_cell(o: Option<i64>) -> FieldModel {
    match o {
        Some(x) => FieldModel::Int(x),
        None => FieldModel::Null,
    }
}

pub open spec fn bool_cell(o: Option<bool>) -> FieldModel {
    match o {
        Some(x) => FieldModel::Bool(x),
        None => FieldModel::Null,
    }
}

pub open spec fn date_cell(o: Option<i32>) -> FieldModel {
    match o {
        Some(x) => FieldModel::Date(x),
        None => FieldModel::Null,
    }
}

pub open spec fn timestamp_cell(o: Option<i64>) -> FieldModel {
    match o {
        Some(x) => FieldModel::Timestamp(x),
        None => FieldModel::Null,
    }
}

impl View for ColumnData {
    type V = ColumnModel;

    open spec fn view(&self) -> ColumnModel {
        match self {
            ColumnData::Utf8(v) => ColumnModel {
                physical: PhysicalType::Utf8,
                cells: v@.map_values(|o: Option<String>| text_cell(o)),
            },
            ColumnData::Int64(v) => ColumnModel {
                physical: PhysicalType::Int64,
                cells: v@.map_values(|o: Option<i64>| int_cell(o)),
            },
            ColumnData::Float64(v) => ColumnModel {
                physical: PhysicalType::Float64,
                cells: v@.map_values(|o: Option<String>| float_cell(o)),
            },
            ColumnData::Boolean(v) => ColumnModel {
                physical: PhysicalType::Boolean,
                cells: v@.map_values(|o: Option<bool>| bool_cell(o)),
            },
            ColumnData::Date32(v) => ColumnModel {
                physical: PhysicalType::Date32,
                cells: v@.map_values(|o: Option<i32>| date_cell(o)),
            },
            ColumnData::TimestampNanos(v) => ColumnModel {
                physical: PhysicalType::TimestampNanosUtc,
                cells: v@.map_values(|o: Option<i64>| timestamp_cell(o)),
            },
        }
    }
}

impl ColumnData {
    /// The number of entries.
    pub fn len(&self) -> (r: usize)
        ensures
            r == self@.cells.len(),
    {
        match self {
            ColumnData::Utf8(v) => v.len(),
            ColumnData::Int64(v) => v.len(),
            ColumnData::Float64(v) => v.len(),
            ColumnData::Boolean(v) => v.len(),
            ColumnData::Date32(v) => v.len(),
            ColumnData::TimestampNanos(v) => v.len(),
        }
    }

    /// Reads back the value of row `i`: null for an absent entry.
    pub fn value_at(&self, i: usize) -> (r: FieldValue)
        requires
            i < self@.cells.len(),
        ensures
            r@ == self@.cells[i as int],
    {
        match self {
            ColumnData::Utf8(v) => match &v[i] {
                Some(s) => FieldValue::Str(s.clone()),
                None => FieldValue::Null,
            },
            ColumnData::Int64(v) => match v[i] {
                Some(x) => FieldValue::Int(x),
                None => FieldValue::Null,
            },
            ColumnData::Float64(v) => match &v[i] {
                Some(s) => FieldValue::Float(s.clone()),
                None => FieldValue::Null,
            },
            ColumnData::Boolean(v) => match v[i] {
                Some(x) => FieldValue::Bool(x),
                None => FieldValue::Null,
            },
            ColumnData::Date32(v) => match v[i] {
                Some(x) => FieldValue::Date(x),
                None => FieldValue::Null,
            },
            ColumnData::TimestampNanos(v) => match v[i] {
                Some(x) => FieldValue::Timestamp(x),
                None => FieldValue::Null,
            },
        }
    }
}

/// The entry that row `r` gives to column `c` of type `t`: its value where the row
/// has one of that type, else an absent entry.
pub open spec fn cell_of(r: Seq<FieldModel>, c: int, t: DataType) -> FieldModel {
    if 0 <= c < r.len() && fits_type(r[c], t) {
        r[c]
    } else {
        FieldModel::Null
    }
}

/// The columns of a batch: for each schema column, its storage type and one entry
/// per row, in row order.
pub open spec fn materialized(rows: Seq<Seq<FieldModel>>, columns: Seq<ColumnDefinition>) -> Seq<
    ColumnModel,
> {
    Seq::new(
        columns.len(),
        |c: int|
            ColumnModel {
                physical: physical_of(columns[c].column_type),
                cells: Seq::new(rows.len(), |i: int| cell_of(rows[i], c, columns[c].column_type)),
            },
    )
}

pub open spec fn columns_view(cols: Seq<ColumnData>) -> Seq<ColumnModel> {
    cols.map_values(|c: ColumnData| c@)
}

fn text_of(f: &FieldValue) -> (r: Option<String>)
    ensures
        text_cell(r) == (if fits_type(f@, DataType::String) { f@ } else { FieldModel::Null }),
{
    match f {
        FieldValue::Str(s) => Some(s.clone()),
        _ => None,
    }
}

fn float_of(f: &FieldValue) -> (r: Option<String>)
    ensures
        float_cell(r) == (if fits_type(f@, DataType::Float) { f@ } else { FieldModel::Null }),
{
    match f {
        FieldValue::Float(s) => Some(s.clone()),
        _ => None,
    }
}

/// Builds the column of type `t` at position `c` from the rows.
pub fn build_column(rows: &Vec<Row>, c: usize, t: DataType) -> (r: ColumnData)
    ensures
        r@ == (ColumnModel {
            physical: physical_of(t),
            cells: Seq::new(rows@.len(), |i: int| cell_of(row_view(rows@[i]), c as int, t)),
        }),
{
    let n = rows.len();
    let ghost want = Seq::new(rows@.len(), |i: int| cell_of(row_view(rows@[i]), c as int, t));
    match t {
        DataType::String => {
            let mut v: Vec<Option<String>> = Vec::with_capacity(n);
            let mut i: usize = 0;
            while i < n
                invariant
                    n == rows@.len(),
                    i <= n,
                    want == Seq::new(rows@.len(), |i: int| cell_of(row_view(rows@[i]), c as int, t)),
                    t == DataType::String,
                    v@.map_values(|o: Option<String>| text_cell(o)) == want.take(i as int),
                decreases n - i,
            {
                let ghost old_v = v@;
                let e = if c < rows[i].len() {
                    text_of(&rows[i][c])
                } else {
                    None
                };
                v.push(e);
                assert(v@.map_values(|o: Option<String>| text_cell(o)) =~= old_v.map_values(
                    |o: Option<String>| text_cell(o),
                ).push(text_cell(e)));
                assert(v@.map_values(|o: Option<String>| text_cell(o)) =~= want.take(i + 1));
                i = i + 1;
            }
            assert(want.take(n as int) =~= want);
            ColumnData::Utf8(v)
        },
        DataType::Float => {
            let mut v: Vec<Option<String>> = Vec::with_capacity(n);
            let mut i: usize = 0;
            while i < n
                invariant
                    n == rows@.len(),
                    i <= n,
                    want == Seq::new(rows@.len(), |i: int| cell_of(row_view(rows@[i]), c as int, t)),
                    t == DataType::Float,
                    v@.map_values(|o: Option<String>| float_cell(o)) == want.take(i as int),
                decreases n - i,
            {
                let ghost old_v = v@;
                let e = if c < rows[i].len() {
                    float_of(&rows[i][c])
                } else {
                    None
                };
                v.push(e);
                assert(v@.map_values(|o: Option<String>| float_cell(o)) =~= old_v.map_values(
                    |o: Option<String>| float_cell(o),
                ).push(float_cell(e)));
                assert(v@.map_values(|o: Option<String>| float_cell(o)) =~= want.take(i + 1));
                i = i + 1;
            }
            assert(want.take(n as int) =~= want);
            ColumnData::Float64(v)
        },
        DataType::Integer => {
            let mut v: Vec<Option<i64>> = Vec::with_capacity(n);
            let mut i: usize = 0;
            while i < n
                invariant
                    n == rows@.len(),
                    i <= n,
                    want == Seq::new(rows@.len(), |i: int| cell_of(row_view(rows@[i]), c as int, t)),
                    t == DataType::Integer,
                    v@.map_values(|o: Option<i64>| int_cell(o)) == want.take(i as int),
                decreases n - i,
            {
                let ghost old_v = v@;
                let e = if c < rows[i].len() {
                    match rows[i][c] {
                        FieldValue::Int(x) => Some(x),
                        _ => None,
                    }
                } else {
                    None
                };
                v.push(e);
                assert(v@.map_values(|o: Option<i64>| int_cell(o)) =~= old_v.map_values(
                    |o: Option<i64>| int_cell(o),
                ).push(int_cell(e)));
                assert(v@.map_values(|o: Option<i64>| int_cell(o)) =~= want.take(i + 1));
                i = i + 1;
            }
            assert(want.take(n as int) =~= want);
            ColumnData::Int64(v)
        },
        DataType::Boolean => {
            let mut v: Vec<Option<bool>> = Vec::with_capacity(n);
            let mut i: usize = 0;
            while i < n
                invariant
                    n == rows@.len(),
                    i <= n,
                    want == Seq::new(rows@.len(), |i: int| cell_of(row_view(rows@[i]), c as int, t)),
                    t == DataType::Boolean,
                    v@.map_values(|o: Option<bool>| bool_cell(o)) == want.take(i as int),
                decreases n - i,
            {
                let ghost old_v = v@;
                let e = if c < rows[i].len() {
                    match rows[i][c] {
                        FieldValue::Bool(x) => Some(x),
                        _ => None,
                    }
                } else {
                    None
                };
                v.push(e);
                assert(v@.map_values(|o: Option<bool>| bool_cell(o)) =~= old_v.map_values(
                    |o: Option<bool>| bool_cell(o),
                ).push(bool_cell(e)));
                assert(v@.map_values(|o: Option<bool>| bool_cell(o)) =~= want.take(i + 1));
                i = i + 1;
            }
            assert(want.take(n as int) =~= want);
            ColumnData::Boolean(v)
        },
        DataType::Date => {
            let mut v: Vec<Option<i32>> = Vec::with_capacity(n);
            let mut i: usize = 0;
            while i < n
                invariant
                    n == rows@.len(),
                    i <= n,
                    want == Seq::new(rows@.len(), |i: int| cell_of(row_view(rows@[i]), c as int, t)),
                    t == DataType::Date,
                    v@.map_values(|o: Option<i32>| date_cell(o)) == want.take(i as int),
                decreases n - i,
            {
                let ghost old_v = v@;
                let e = if c < rows[i].len() {
                    match rows[i][c] {
                        FieldValue::Date(x) => Some(x),
                        _ => None,
                    }
                } else {
                    None
                };
                v.push(e);
                assert(v@.map_values(|o: Option<i32>| date_cell(o)) =~= old_v.map_values(
                    |o: Option<i32>| date_cell(o),
                ).push(date_cell(e)));
                assert(v@.map_values(|o: Option<i32>| date_cell(o)) =~= want.take(i + 1));
                i = i + 1;
            }
            assert(want.take(n as int) =~= want);
            ColumnData::Date32(v)
        },
        DataType::DateTime | DataType::Timestamp => {
            let mut v: Vec<Option<i64>> = Vec::with_capacity(n);
            let mut i: usize = 0;
            while i < n
                invariant
                    n == rows@.len(),
                    i <= n,
                    want == Seq::new(rows@.len(), |i: int| cell_of(row_view(rows@[i]), c as int, t)),
                    t == DataType::DateTime || t == DataType::Timestamp,
                    v@.map_values(|o: Option<i64>| timestamp_cell(o)) == want.take(i as int),
                decreases n - i,
            {
                let ghost old_v = v@;
                let e = if c < rows[i].len() {
                    match rows[i][c] {
                        FieldValue::Timestamp(x) => Some(x),
                        _ => None,
                    }
                } else {
                    None
                };
                v.push(e);
                assert(v@.map_values(|o: Option<i64>| timestamp_cell(o)) =~= old_v.map_values(
                    |o: Option<i64>| timestamp_cell(o),
                ).push(timestamp_cell(e)));
                assert(v@.map_values(|o: Option<i64>| timestamp_cell(o)) =~= want.take(i + 1));
                i = i + 1;
            }
            assert(want.take(n as int) =~= want);
            ColumnData::TimestampNanos(v)
        },
    }
}

/// Turns row-major rows into one typed column per schema column. A value whose
/// variant is not its column's type, or a missing value, becomes an absent entry,
/// so every column has one entry per row.
pub fn create_arrays_from_rows_efficient(rows: &Vec<Row>, columns: &Vec<ColumnDefinition>) -> (r:
    Vec<ColumnData>)
    ensures
        columns_view(r@) == materialized(rows_view(rows@), columns@),
{
    let ghost want = materialized(rows_view(rows@), columns@);
    let mut out: Vec<ColumnData> = Vec::with_capacity(columns.len());
    let mut c: usize = 0;
    while c < columns.len()
        invariant
            c <= columns@.len(),
            want == materialized(rows_view(rows@), columns@),
            columns_view(out@) == want.take(c as int),
        decreases columns.len() - c,
    {
        let col = build_column(rows, c, columns[c].column_type);
        let ghost old_out = columns_view(out@);
        assert(col@.cells =~= want[c as int].cells);
        out.push(col);
        assert(columns_view(out@) =~= old_out.push(col@));
        assert(columns_view(out@) =~= want.take(c + 1));
        c = c + 1;
    }
    assert(want.take(columns@.len() as int) =~= want);
    out
}

/// The columns of a non-empty batch; an empty batch is a `ConvertError::Format`.
pub fn create_record_batch_efficient(rows: &Vec<Row>, columns: &Vec<ColumnDefinition>) -> (r:
    Result<Vec<ColumnData>, ConvertError>)
    ensures
        match r {
            Ok(cols) => rows@.len() > 0 && columns_view(cols@) == materialized(
                rows_view(rows@),
                columns@,
            ),
            Err(e) => rows@.len() == 0 && e == ConvertError::Format,
        },
{
    if rows.len() == 0 {
        return Err(ConvertError::Format);
    }
    Ok(create_arrays_from_rows_efficient(rows, columns))
}

/// Materializing rows that fit the schema and reading the columns back, column by
/// column, gives back every row's values: each column has one entry per row, of
/// the column's storage type, and entry `i` of column `c` is value `c` of row `i`.
pub proof fn lemma_materialize_round_trip(
    rows: Seq<Seq<FieldModel>>,
    columns: Seq<ColumnDefinition>,
)
    requires
        forall|i: int| 0 <= i < rows.len() ==> row_fits(#[trigger] rows[i], columns),
    ensures
        materialized(rows, columns).len() == columns.len(),
        forall|c: int|
            0 <= c < columns.len() ==> {
                &&& (#[trigger] materialized(rows, columns)[c]).cells.len() == rows.len()
                &&& materialized(rows, columns)[c].physical == physical_of(columns[c].column_type)
            },
        forall|c: int, i: int|
            0 <= c < columns.len() && 0 <= i < rows.len() ==> (#[trigger] materialized(
                rows,
                columns,
            )[c]).cells[i] == #[trigger] rows[i][c],
{
    assert forall|c: int, i: int|
        0 <= c < columns.len() && 0 <= i < rows.len() implies (#[trigger] materialized(
        rows,
        columns,
    )[c]).cells[i] == #[trigger] rows[i][c] by {
        assert(row_fits(rows[i], columns));
        assert(fits_type(rows[i][c], columns[c].column_type));
    }
}

} // verus!
