use vstd::prelude::*;
use crate::coerce::{coerce_range, coerce_text};
use crate::error::ConvertError;
use crate::record::{fields_view, split_line, split_record};
use crate::text::{chars_of, is_blank, string_of, trim_range, trimmed};
use crate::types::{fits_type, row_fits, row_view, ColumnDefinition, DataType, FieldModel, FieldValue, Row};

verus! {

/// The column names of a header line, trimmed; `None` for a blank line or one with
/// a quote left open.
pub open spec fn header_names(line: Seq<char>) -> Option<Seq<Seq<char>>> {
    if is_blank(line) {
        None
    } else {
        match split_line(line) {
            Some(fs) => Some(fs.map_values(|f: Seq<char>| trimmed(f))),
            None => None,
        }
    }
}

pub open spec fn strings_view(v: Seq<String>) -> Seq<Seq<char>> {
    v.map_values(|s: String| s@)
}

/// Reads the header line: the names of the source columns, in source order.
pub fn parse_csv_headers(line: &str) -> (r: Result<Vec<String>, ConvertError>)
    ensures
        match r {
            Ok(h) => header_names(line@) == Some(strings_view(h@)),
            Err(e) => header_names(line@) is None && e == ConvertError::Schema,
        },
{
    let v = chars_of(line);
    assert(v@.subrange(0, v@.len() as int) =~= line@);
    let (a, b) = trim_range(&v, 0, v.len());
    if a == b {
        return Err(ConvertError::Schema);
    }
    match split_record(&v) {
        None => Err(ConvertError::Schema),
        Some(fs) => {
            let ghost fv = fields_view(fs@);
            let mut names: Vec<String> = Vec::new();
            let mut k: usize = 0;
            while k < fs.len()
                invariant
                    k <= fs@.len(),
                    fv == fields_view(fs@),
                    strings_view(names@) == fv.take(k as int).map_values(|f: Seq<char>| trimmed(f)),
                decreases fs.len() - k,
            {
                let f = &fs[k];
                let (x, y) = trim_range(f, 0, f.len());
                assert(f@.subrange(0, f@.len() as int) =~= f@);
                let ghost old_view = strings_view(names@);
                names.push(string_of(f, x, y));
                assert(fv[k as int] == fs@[k as int]@);
                assert(strings_view(names@) =~= old_view.push(trimmed(fv[k as int])));
                assert(strings_view(names@) =~= fv.take(k + 1).map_values(|f: Seq<char>| trimmed(f)));
                k = k + 1;
            }
            assert(fv.take(fs@.len() as int) =~= fv);
            Ok(names)
        },
    }
}

/// The position of the last name in `hs` equal to `name`.
pub open spec fn last_index_of(hs: Seq<Seq<char>>, name: Seq<char>) -> Option<int>
    decreases hs.len(),
{
    if hs.len() == 0 {
        None
    } else if hs.last() == name {
        Some(hs.len() - 1)
    } else {
        last_index_of(hs.drop_last(), name)
    }
}

pub open spec fn index_view(o: Option<usize>) -> Option<int> {
    match o {
        Some(j) => Some(j as int),
        None => None,
    }
}

/// For each output column, the source position of the header of the same name (the
/// last one, where names repeat).
pub open spec fn binding_of(columns: Seq<ColumnDefinition>, headers: Seq<Seq<char>>) -> Seq<
    Option<int>,
> {
    Seq::new(columns.len(), |c: int| last_index_of(headers, columns[c].column@))
}

/// Matches each schema column to the source column of the same name, by name and
/// not by order; a column that the header lacks is bound to nothing.
pub fn bind_schema(columns: &Vec<ColumnDefinition>, headers: &Vec<String>) -> (r: Vec<Option<usize>>)
    ensures
        r@.map_values(|o: Option<usize>| index_view(o)) == binding_of(columns@, strings_view(headers@)),
        forall|c: int| 0 <= c < r@.len() ==> match #[trigger] r@[c] {
            Some(j) => j < headers@.len(),
            None => true,
        },
{
    let ghost hs = strings_view(headers@);
    let mut r: Vec<Option<usize>> = Vec::new();
    let mut c: usize = 0;
    while c < columns.len()
        invariant
            c <= columns@.len(),
            hs == strings_view(headers@),
            r@.map_values(|o: Option<usize>| index_view(o)) == binding_of(columns@, hs).take(c as int),
            forall|k: int| 0 <= k < r@.len() ==> match #[trigger] r@[k] {
                Some(j) => j < headers@.len(),
                None => true,
            },
        decreases columns.len() - c,
    {
        let name = &columns[c].column;
        let mut found: Option<usize> = None;
        let mut j: usize = 0;
        assert(hs.take(0) =~= Seq::<Seq<char>>::empty());
        while j < headers.len()
            invariant
                j <= headers@.len(),
                hs == strings_view(headers@),
                index_view(found) == last_index_of(hs.take(j as int), name@),
                match found {
                    Some(x) => x < headers@.len(),
                    None => true,
                },
            decreases headers.len() - j,
        {
            assert(hs.take(j + 1).drop_last() =~= hs.take(j as int));
            assert(hs.take(j + 1).last() == headers@[j as int]@);
            if headers[j] == *name {
                found = Some(j);
            }
            j = j + 1;
        }
        assert(hs.take(headers@.len() as int) =~= hs);
        let ghost old_view = r@.map_values(|o: Option<usize>| index_view(o));
        r.push(found);
        assert(r@.map_values(|o: Option<usize>| index_view(o)) =~= old_view.push(index_view(found)));
        assert(r@.map_values(|o: Option<usize>| index_view(o)) =~= binding_of(columns@, hs).take(
            c + 1,
        ));
        c = c + 1;
    }
    assert(binding_of(columns@, hs).take(columns@.len() as int) =~= binding_of(columns@, hs));
    r
}

/// The row that the fields `fs` of a line give under the schema and binding: each
/// column's source field coerced to its declared type, or null where the column
/// is bound to nothing or the line is too short.
pub open spec fn decode_fields(
    fs: Seq<Seq<char>>,
    columns: Seq<ColumnDefinition>,
    binding: Seq<Option<usize>>,
) -> Seq<FieldModel> {
    Seq::new(
        columns.len(),
        |c: int|
            match binding[c] {
                Some(j) => if j < fs.len() {
                    coerce_text(fs[j as int], columns[c].column_type)
                } else {
                    FieldModel::Null
                },
                None => FieldModel::Null,
            },
    )
}

/// The row that a data line gives, or `None` where it cannot be split.
pub open spec fn decode_line(
    line: Seq<char>,
    columns: Seq<ColumnDefinition>,
    binding: Seq<Option<usize>>,
) -> Option<Seq<FieldModel>> {
    match split_line(line) {
        Some(fs) => Some(decode_fields(fs, columns, binding)),
        None => None,
    }
}

/// A coerced value always fits the type it was coerced to.
pub proof fn lemma_coerce_fits(s: Seq<char>, t: DataType)
    ensures
        fits_type(coerce_text(s, t), t),
{
}

/// Every decoded row has the schema's length and fits its column types.
pub proof fn lemma_decoded_row_fits(
    fs: Seq<Seq<char>>,
    columns: Seq<ColumnDefinition>,
    binding: Seq<Option<usize>>,
)
    ensures
        row_fits(decode_fields(fs, columns, binding), columns),
{
    let r = decode_fields(fs, columns, binding);
    assert forall|c: int| 0 <= c < r.len() implies fits_type(#[trigger] r[c], columns[c].column_type) by {
        match binding[c] {
            Some(j) => if j < fs.len() {
                lemma_coerce_fits(fs[j as int], columns[c].column_type);
            },
            None => {},
        }
    }
}

/// Decodes the line `v` under the schema and binding.
pub fn decode_chars(v: &Vec<char>, columns: &Vec<ColumnDefinition>, binding: &Vec<Option<usize>>) -> (r:
    Option<Row>)
    requires
        binding@.len() == columns@.len(),
    ensures
        match r {
            Some(row) => decode_line(v@, columns@, binding@) == Some(row_view(row)),
            None => decode_line(v@, columns@, binding@) is None,
        },
{
    let fs = match split_record(v) {
        Some(fs) => fs,
        None => {
            return None;
        },
    };
    let ghost fv = fields_view(fs@);
    let ghost want = decode_fields(fv, columns@, binding@);
    let mut row: Row = Vec::new();
    let mut c: usize = 0;
    while c < columns.len()
        invariant
            c <= columns@.len(),
            binding@.len() == columns@.len(),
            fv == fields_view(fs@),
            want == decode_fields(fv, columns@, binding@),
            row_view(row) == want.take(c as int),
        decreases columns.len() - c,
    {
        let t = columns[c].column_type;
        let value = match binding[c] {
            Some(j) => if j < fs.len() {
                let f = &fs[j];
                assert(f@.subrange(0, f@.len() as int) =~= f@);
                coerce_range(f, 0, f.len(), t)
            } else {
                FieldValue::Null
            },
            None => FieldValue::Null,
        };
        let ghost old_view = row_view(row);
        proof {
            match binding@[c as int] {
                Some(j) => if j < fs@.len() {
                    assert(fv[j as int] == fs@[j as int]@);
                },
                None => {},
            }
        }
        row.push(value);
        assert(row_view(row) =~= old_view.push(value@));
        assert(row_view(row) =~= want.take(c + 1));
        c = c + 1;
    }
    assert(want.take(columns@.len() as int) =~= want);
    Some(row)
}

/// Decodes one data line: splits it into fields and coerces, for each schema column,
/// the field that the binding names. A line with a quote left open is a
/// `ConvertError::Parse`.
pub fn parse_csv_row_efficient(
    line: &str,
    columns: &Vec<ColumnDefinition>,
    binding: &Vec<Option<usize>>,
) -> (r: Result<Row, ConvertError>)
    requires
        binding@.len() == columns@.len(),
    ensures
        match r {
            Ok(row) => decode_line(line@, columns@, binding@) == Some(row_view(row)),
            Err(e) => decode_line(line@, columns@, binding@) is None && e == ConvertError::Parse,
        },
{
    let v = chars_of(line);
    match decode_chars(&v, columns, binding) {
        Some(row) => Ok(row),
        None => Err(ConvertError::Parse),
    }
}

} // verus!
