use vstd::prelude::*;
use crate::batch::{capped, Accumulator, Batch, PipelineConfig};
use crate::decode::{
    bind_schema, binding_of, decode_chars, decode_line, header_names, index_view, parse_csv_headers,
    strings_view,
};
use crate::columns::{lemma_materialize_round_trip, materialized};
use crate::decode::lemma_decoded_row_fits;
use crate::error::ConvertError;
use crate::record::split_line;
use crate::text::{chars_of, is_blank, trim_range};
use crate::types::{row_fits, row_view, rows_view, ColumnDefinition, FieldModel};

verus! {

/// The rows that the data lines give, in line order, leaving out the lines that
/// cannot be split.
pub open spec fn decoded_rows(
    lines: Seq<Seq<char>>,
    columns: Seq<ColumnDefinition>,
    binding: Seq<Option<usize>>,
) -> Seq<Seq<FieldModel>>
    decreases lines.len(),
{
    if lines.len() == 0 {
        Seq::empty()
    } else {
        let prev = decoded_rows(lines.drop_last(), columns, binding);
        match decode_line(lines.last(), columns, binding) {
            Some(r) => prev.push(r),
            None => prev,
        }
    }
}

/// The number of data lines that cannot be split.
pub open spec fn failed_lines(
    lines: Seq<Seq<char>>,
    columns: Seq<ColumnDefinition>,
    binding: Seq<Option<usize>>,
) -> nat
    decreases lines.len(),
{
    if lines.len() == 0 {
        0
    } else {
        failed_lines(lines.drop_last(), columns, binding) + if decode_line(
            lines.last(),
            columns,
            binding,
        ) is None {
            1nat
        } else {
            0nat
        }
    }
}

/// The rows of a sequence of batches, batch after batch.
pub open spec fn batch_rows(batches: Seq<Seq<Seq<FieldModel>>>) -> Seq<Seq<FieldModel>>
    decreases batches.len(),
{
    if batches.len() == 0 {
        Seq::empty()
    } else {
        batch_rows(batches.drop_last()) + batches.last()
    }
}

/// Every data line gives either one decoded row or one parse error.
pub proof fn lemma_every_line_accounted(
    lines: Seq<Seq<char>>,
    columns: Seq<ColumnDefinition>,
    binding: Seq<Option<usize>>,
)
    ensures
        decoded_rows(lines, columns, binding).len() + failed_lines(lines, columns, binding)
            == lines.len(),
    decreases lines.len(),
{
    if lines.len() > 0 {
        lemma_every_line_accounted(lines.drop_last(), columns, binding);
    }
}

/// Every decoded row has the schema's length and fits its columns' types, so
/// materializing decoded rows and reading the columns back gives the same values.
pub proof fn lemma_decoded_rows_round_trip(
    lines: Seq<Seq<char>>,
    columns: Seq<ColumnDefinition>,
    binding: Seq<Option<usize>>,
)
    ensures
        forall|i: int|
            0 <= i < decoded_rows(lines, columns, binding).len() ==> row_fits(
                #[trigger] decoded_rows(lines, columns, binding)[i],
                columns,
            ),
        forall|c: int, i: int|
            0 <= c < columns.len() && 0 <= i < decoded_rows(lines, columns, binding).len() ==> (
            #[trigger] materialized(decoded_rows(lines, columns, binding), columns)[c]).cells[i]
                == #[trigger] decoded_rows(lines, columns, binding)[i][c],
    decreases lines.len(),
{
    let rows = decoded_rows(lines, columns, binding);
    if lines.len() > 0 {
        lemma_decoded_rows_round_trip(lines.drop_last(), columns, binding);
        match split_line(lines.last()) {
            Some(fs) => lemma_decoded_row_fits(fs, columns, binding),
            None => {},
        }
    }
    assert forall|i: int| 0 <= i < rows.len() implies row_fits(#[trigger] rows[i], columns) by {
        if i < rows.len() - 1 || decode_line(lines.last(), columns, binding) is None {
            assert(rows[i] == decoded_rows(lines.drop_last(), columns, binding)[i]);
        }
    }
    lemma_materialize_round_trip(rows, columns);
}

/// The streaming conversion of one input: the first non-blank line is the header,
/// each later non-blank line a data row; rows leave in batches.
pub struct Converter {
    columns: Vec<ColumnDefinition>,
    binding: Option<Vec<Option<usize>>>,
    acc: Accumulator,
    skipped: usize,
    header: Ghost<Seq<Seq<char>>>,
    lines: Ghost<Seq<Seq<char>>>,
    emitted: Ghost<Seq<Seq<Seq<FieldModel>>>>,
}

impl Converter {
    /// The schema columns.
    pub closed spec fn columns(&self) -> Seq<ColumnDefinition> {
        self.columns@
    }

    /// Whether the header line has been read.
    pub closed spec fn has_header(&self) -> bool {
        self.binding is Some
    }

    /// The column names that the header line gave.
    pub closed spec fn header(&self) -> Seq<Seq<char>> {
        self.header@
    }

    /// The binding of schema columns to source positions that the header gave.
    pub closed spec fn binding(&self) -> Seq<Option<usize>> {
        match self.binding {
            Some(b) => b@,
            None => Seq::empty(),
        }
    }

    /// The data lines read so far.
    pub closed spec fn data_lines(&self) -> Seq<Seq<char>> {
        self.lines@
    }

    /// The rows of each batch handed out so far, in order.
    pub closed spec fn emitted(&self) -> Seq<Seq<Seq<FieldModel>>> {
        self.emitted@
    }

    /// Decoded rows not yet handed out.
    pub closed spec fn pending(&self) -> Seq<Seq<FieldModel>> {
        self.acc.pending()
    }

    pub closed spec fn skipped_count(&self) -> nat {
        self.skipped as nat
    }

    pub closed spec fn config_rows(&self) -> usize {
        self.acc.max_rows()
    }

    pub closed spec fn config_bytes(&self) -> usize {
        self.acc.max_bytes()
    }

    /// The batches handed out, followed by the rows held, are the decoded rows of the
    /// data lines in order; the skip count is the number of lines that could not be
    /// split (capped at `usize::MAX`).
    pub closed spec fn wf(&self) -> bool {
        &&& self.acc.wf()
        &&& match self.binding {
            Some(b) => {
                &&& b@.len() == self.columns@.len()
                &&& b@.map_values(|o: Option<usize>| index_view(o)) == binding_of(
                    self.columns@,
                    self.header@,
                )
            },
            None => {
                &&& self.lines@.len() == 0
                &&& self.emitted@.len() == 0
                &&& self.acc.pending().len() == 0
            },
        }
        &&& batch_rows(self.emitted@) + self.acc.pending() == decoded_rows(
            self.lines@,
            self.columns@,
            self.binding(),
        )
        &&& self.skipped as int == capped(failed_lines(self.lines@, self.columns@, self.binding()) as int)
    }

    /// Once the header is read, each schema column is bound to the source column of
    /// the same name in the header.
    pub proof fn lemma_binding(&self)
        requires
            self.wf(),
        ensures
            self.has_header() ==> {
                &&& self.binding().len() == self.columns().len()
                &&& self.binding().map_values(|o: Option<usize>| index_view(o)) == binding_of(
                    self.columns(),
                    self.header(),
                )
            },
    {
    }

    pub fn new(columns: Vec<ColumnDefinition>, config: &PipelineConfig) -> (r: Self)
        requires
            config.valid(),
        ensures
            r.wf(),
            r.columns() == columns@,
            !r.has_header(),
            r.data_lines() == Seq::<Seq<char>>::empty(),
            r.emitted() == Seq::<Seq<Seq<FieldModel>>>::empty(),
            r.skipped_count() == 0,
            r.config_rows() == config.max_rows,
            r.config_bytes() == config.max_bytes,
    {
        Converter {
            columns,
            binding: None,
            acc: Accumulator::new(config),
            skipped: 0,
            header: Ghost(Seq::empty()),
            lines: Ghost(Seq::empty()),
            emitted: Ghost(Seq::empty()),
        }
    }

    /// Rows skipped so far because their line could not be split.
    pub fn skipped_rows(&self) -> (r: usize)
        requires
            self.wf(),
        ensures
            r as int == capped(
                failed_lines(self.data_lines(), self.columns(), self.binding()) as int,
            ),
    {
        self.skipped
    }

    /// Reads one line. A blank line is passed over. The first other line is the
    /// header: where it has a quote left open the input is unusable
    /// (`ConvertError::Schema`). Each later line is decoded: a row joins the
    /// current batch, which is handed out when full; a line that cannot be split is
    /// counted and skipped.
    pub fn feed_line(&mut self, line: &str) -> (r: Result<Option<Batch>, ConvertError>)
        requires
            old(self).wf(),
        ensures
            final(self).wf(),
            final(self).columns() == old(self).columns(),
            final(self).config_rows() == old(self).config_rows(),
            final(self).config_bytes() == old(self).config_bytes(),
            is_blank(line@) ==> r == Ok::<Option<Batch>, ConvertError>(None) && *final(self) == *old(self),
            !is_blank(line@) && !old(self).has_header() ==> match header_names(line@) {
                Some(h) => {
                    &&& r == Ok::<Option<Batch>, ConvertError>(None)
                    &&& final(self).has_header()
                    &&& final(self).header() == h
                    &&& final(self).binding().len() == final(self).columns().len()
                    &&& final(self).binding().map_values(|o: Option<usize>| index_view(o))
                        == binding_of(final(self).columns(), h)
                    &&& final(self).data_lines() == old(self).data_lines()
                    &&& final(self).emitted() == old(self).emitted()
                },
                None => r == Err::<Option<Batch>, ConvertError>(ConvertError::Schema) && *final(self) == *old(self),
            },
            !is_blank(line@) && old(self).has_header() ==> {
                &&& r is Ok
                &&& final(self).has_header()
                &&& final(self).header() == old(self).header()
                &&& final(self).binding() == old(self).binding()
                &&& final(self).data_lines() == old(self).data_lines().push(line@)
                &&& match r->Ok_0 {
                    Some(b) => {
                        &&& final(self).emitted() == old(self).emitted().push(rows_view(b.rows@))
                        &&& final(self).pending().len() == 0
                    },
                    None => final(self).emitted() == old(self).emitted(),
                }
            },
    {
        let v = chars_of(line);
        assert(v@.subrange(0, v@.len() as int) =~= line@);
        let (a, b) = trim_range(&v, 0, v.len());
        if a == b {
            return Ok(None);
        }
        match &self.binding {
            None => {
                match parse_csv_headers(line) {
                    Ok(names) => {
                        let binding = bind_schema(&self.columns, &names);
                        assert(binding@.map_values(|o: Option<usize>| index_view(o)).len() == binding@.len());
                        proof {
                            self.header@ = strings_view(names@);
                            assert(self.lines@ =~= Seq::<Seq<char>>::empty());
                        }
                        self.binding = Some(binding);
                        assert(batch_rows(self.emitted@) =~= Seq::<Seq<FieldModel>>::empty());
                        assert(batch_rows(self.emitted@) + self.acc.pending() =~= Seq::<Seq<FieldModel>>::empty());
                        Ok(None)
                    },
                    Err(e) => Err(e),
                }
            },
            Some(binding) => {
                let ghost lines0 = self.lines@;
                let ghost bnd = binding@;
                let decoded = decode_chars(&v, &self.columns, binding);
                proof {
                    self.lines@ = self.lines@.push(line@);
                    assert(self.lines@.drop_last() =~= lines0);
                }
                match decoded {
                    None => {
                        self.skipped = if self.skipped == usize::MAX {
                            usize::MAX
                        } else {
                            self.skipped + 1
                        };
                        Ok(None)
                    },
                    Some(row) => {
                        let ghost emitted0 = self.emitted@;
                        let ghost pending0 = self.acc.pending();
                        let ghost rv = row_view(row);
                        let out = self.acc.push(row);
                        match out {
                            Some(batch) => {
                                proof {
                                    self.emitted@ = self.emitted@.push(rows_view(batch.rows@));
                                    assert(self.emitted@.drop_last() =~= emitted0);
                                    assert(batch_rows(self.emitted@) + self.acc.pending() =~= (
                                    batch_rows(emitted0) + pending0).push(rv));
                                }
                                Ok(Some(batch))
                            },
                            None => {
                                assert(batch_rows(self.emitted@) + self.acc.pending() =~= (
                                batch_rows(emitted0) + pending0).push(rv));
                                Ok(None)
                            },
                        }
                    },
                }
            },
        }
    }

    /// Ends the input: hands out the rows still held as a last batch. An input that
    /// never gave a header line is a `ConvertError::Schema`.
    pub fn finish(&mut self) -> (r: Result<Option<Batch>, ConvertError>)
        requires
            old(self).wf(),
        ensures
            final(self).wf(),
            final(self).columns() == old(self).columns(),
            final(self).data_lines() == old(self).data_lines(),
            final(self).has_header() == old(self).has_header(),
            final(self).pending() == Seq::<Seq<FieldModel>>::empty(),
            final(self).binding() == old(self).binding(),
            final(self).header() == old(self).header(),
            !old(self).has_header() ==> r == Err::<Option<Batch>, ConvertError>(ConvertError::Schema)
                && *final(self) == *old(self),
            old(self).has_header() ==> {
                &&& r is Ok
                &&& match r->Ok_0 {
                    Some(b) => old(self).pending().len() > 0 && rows_view(b.rows@) == old(
                        self,
                    ).pending() && final(self).emitted() == old(self).emitted().push(
                        rows_view(b.rows@),
                    ),
                    None => old(self).pending().len() == 0 && final(self).emitted() == old(
                        self,
                    ).emitted(),
                }
                &&& batch_rows(final(self).emitted()) == decoded_rows(
                    final(self).data_lines(),
                    final(self).columns(),
                    final(self).binding(),
                )
            },
    {
        if self.binding.is_none() {
            return Err(ConvertError::Schema);
        }
        let ghost emitted0 = self.emitted@;
        let ghost pending0 = self.acc.pending();
        let rest = self.acc.take_rest();
        match rest {
            Some(batch) => {
                proof {
                    self.emitted@ = self.emitted@.push(rows_view(batch.rows@));
                    assert(self.emitted@.drop_last() =~= emitted0);
                }
                assert(batch_rows(self.emitted@) + self.acc.pending() =~= batch_rows(emitted0)
                    + pending0);
                Ok(Some(batch))
            },
            None => {
                assert(batch_rows(self.emitted@) + self.acc.pending() =~= batch_rows(emitted0)
                    + pending0);
                Ok(None)
            },
        }
    }
}

/// Order is kept end to end: the rows of the batches handed out, batch after batch,
/// followed by the rows still held, are the rows of the data lines in input order,
/// less the lines dropped as parse errors; and every data line is either a row or
/// a counted parse error.
pub proof fn lemma_conversion_keeps_order(c: &Converter)
    requires
        c.wf(),
    ensures
        batch_rows(c.emitted()) + c.pending() == decoded_rows(c.data_lines(), c.columns(), c.binding()),
        decoded_rows(c.data_lines(), c.columns(), c.binding()).len() + failed_lines(
            c.data_lines(),
            c.columns(),
            c.binding(),
        ) == c.data_lines().len(),
{
    lemma_every_line_accounted(c.data_lines(), c.columns(), c.binding());
}

} // verus!
