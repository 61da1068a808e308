use vstd::prelude::*;

verus! {

/// The declared type of an output column.
#[derive(Clone, Copy, Debug, PartialEq, Eq, Structural)]
pub enum DataType {
    String,
    Integer,
    Float,
    Boolean,
    Date,
    DateTime,
    Timestamp,
}

/// How a column's values are stored in the columnar output.
#[derive(Clone, Copy, Debug, PartialEq, Eq, Structural)]
pub enum PhysicalType {
    /// UTF-8 text.
    Utf8,
    /// 64-bit signed integers.
    Int64,
    /// 64-bit IEEE-754 floats.
    Float64,
    Boolean,
    /// 32-bit day counts since 1970-01-01.
    Date32,
    /// 64-bit nanoseconds since the epoch, in UTC.
    TimestampNanosUtc,
}

pub open spec fn physical_of(t: DataType) -> PhysicalType {
    match t {
        DataType::String => PhysicalType::Utf8,
        DataType::Integer => PhysicalType::Int64,
        DataType::Float => PhysicalType::Float64,
        DataType::Boolean => PhysicalType::Boolean,
        DataType::Date => PhysicalType::Date32,
        DataType::DateTime | DataType::Timestamp => PhysicalType::TimestampNanosUtc,
    }
}

pub open spec fn data_type_label(t: DataType) -> Seq<char> {
    match t {
        DataType::String => "string"@,
        DataType::Integer => "integer"@,
        DataType::Float => "float"@,
        DataType::Boolean => "boolean"@,
        DataType::Date => "date"@,
        DataType::DateTime => "datetime"@,
        DataType::Timestamp => "timestamp"@,
    }
}

impl DataType {
    /// The storage type of columns declared with this type.
    pub fn physical_type(&self) -> (r: PhysicalType)
        ensures
            r == physical_of(*self),
    {
        match self {
            DataType::String => PhysicalType::Utf8,
            DataType::Integer => PhysicalType::Int64,
            DataType::Float => PhysicalType::Float64,
            DataType::Boolean => PhysicalType::Boolean,
            DataType::Date => PhysicalType::Date32,
            DataType::DateTime | DataType::Timestamp => PhysicalType::TimestampNanosUtc,
        }
    }

    /// The lower-case name of the type, as job descriptions write it.
    pub fn name(&self) -> (r: &'static str)
        ensures
            r@ == data_type_label(*self),
    {
        match self {
            DataType::String => "string",
            DataType::Integer => "integer",
            DataType::Float => "float",
            DataType::Boolean => "boolean",
            DataType::Date => "date",
            DataType::DateTime => "datetime",
            DataType::Timestamp => "timestamp",
        }
    }

    /// The lower-case name of the type as an owned string.
    pub fn to_string(&self) -> (r: String)
        ensures
            r@ == data_type_label(*self),
    {
        self.name().to_owned()
    }
}

/// One column of the output schema: its name and declared type.
#[derive(Clone, Debug)]
pub struct ColumnDefinition {
    pub column: String,
    pub column_type: DataType,
}

/// A decoded value of one field.
///
/// A float is kept as the literal text it was read from, checked to be one that
/// `f64`'s parser accepts; the columnar stage turns it into the float it writes.
#[derive(Clone, Debug, PartialEq)]
pub enum FieldValue {
    Null,
    Str(String),
    Int(i64),
    Float(String),
    Bool(bool),
    /// Days since 1970-01-01.
    Date(i32),
    /// Nanoseconds since the epoch, UTC.
    Timestamp(i64),
}

/// What a [`FieldValue`] holds, with text as a sequence of characters.
pub enum FieldModel {
    Null,
    Str(Seq<char>),
    Int(i64),
    Float(Seq<char>),
    Bool(bool),
    Date(i32),
    Timestamp(i64),
}

impl View for FieldValue {
    type V = FieldModel;

    open spec fn view(&self) -> FieldModel {
        match self {
            FieldValue::Null => FieldModel::Null,
            FieldValue::Str(s) => FieldModel::Str(s@),
            FieldValue::Int(i) => FieldModel::Int(*i),
            FieldValue::Float(s) => FieldModel::Float(s@),
            FieldValue::Bool(b) => FieldModel::Bool(*b),
            FieldValue::Date(d) => FieldModel::Date(*d),
            FieldValue::Timestamp(t) => FieldModel::Timestamp(*t),
        }
    }
}

/// A decoded row: one value per schema column, in schema order.
pub type Row = Vec<FieldValue>;

pub open spec fn row_view(r: Row) -> Seq<FieldModel> {
    r@.map_values(|f: FieldValue| f@)
}

pub open spec fn rows_view(rows: Seq<Row>) -> Seq<Seq<FieldModel>> {
    rows.map_values(|r: Row| row_view(r))
}

/// The value is null, or of the variant that columns of type `t` hold.
pub open spec fn fits_type(f: FieldModel, t: DataType) -> bool {
    match f {
        FieldModel::Null => true,
        FieldModel::Str(_) => t == DataType::String,
        FieldModel::Int(_) => t == DataType::Integer,
        FieldModel::Float(_) => t == DataType::Float,
        FieldModel::Bool(_) => t == DataType::Boolean,
        FieldModel::Date(_) => t == DataType::Date,
        FieldModel::Timestamp(_) => t == DataType::DateTime || t == DataType::Timestamp,
    }
}

/// A row of the schema's length whose every value fits its column's type.
pub open spec fn row_fits(r: Seq<FieldModel>, columns: Seq<ColumnDefinition>) -> bool {
    r.len() == columns.len() && forall|c: int|
        0 <= c < r.len() ==> fits_type(#[trigger] r[c], columns[c].column_type)
}

} // verus!
