use vstd::prelude::*;
use vstd::utf8::encode_utf8;
use crate::types::{row_view, rows_view, FieldModel, FieldValue, Row};

verus! {

/// Estimated bytes of the fields of a string column beyond the text itself.
pub const STRING_OVERHEAD: usize = 24;

/// Estimated bytes of a null field, beyond the per-field overhead.
pub const NULL_COST: usize = 8;

/// The memory knobs of a conversion, tuned to the host's memory budget.
#[derive(Clone, Copy, Debug)]
pub struct PipelineConfig {
    /// A batch is flushed once it holds this many rows.
    pub max_rows: usize,
    /// A batch is flushed once its estimated size reaches this many bytes.
    pub max_bytes: usize,
    /// Flushed batches that may wait for the writer at once.
    pub queue_depth: usize,
}

impl PipelineConfig {
    pub open spec fn valid(&self) -> bool {
        self.max_rows >= 1 && self.max_bytes >= 1 && self.queue_depth >= 1
    }

    /// A configuration from its three knobs; `None` where one of them is zero.
    pub fn new(max_rows: usize, max_bytes: usize, queue_depth: usize) -> (r: Option<Self>)
        ensures
            match r {
                Some(c) => c.valid() && c.max_rows == max_rows && c.max_bytes == max_bytes
                    && c.queue_depth == queue_depth,
                None => max_rows == 0 || max_bytes == 0 || queue_depth == 0,
            },
    {
        if max_rows == 0 || max_bytes == 0 || queue_depth == 0 {
            None
        } else {
            Some(PipelineConfig { max_rows, max_bytes, queue_depth })
        }
    }
}

/// The estimated in-memory size of one field: text costs its length in UTF-8 bytes
/// plus a fixed overhead, a null that overhead plus a word, fixed-width values
/// their width.
pub open spec fn field_cost(f: FieldModel) -> int {
    match f {
        FieldModel::Null => NULL_COST + STRING_OVERHEAD,
        FieldModel::Str(s) => encode_utf8(s).len() + STRING_OVERHEAD,
        FieldModel::Int(_) => 8,
        FieldModel::Float(_) => 8,
        FieldModel::Bool(_) => 1,
        FieldModel::Date(_) => 4,
        FieldModel::Timestamp(_) => 8,
    }
}

pub open spec fn row_cost(r: Seq<FieldModel>) -> int
    decreases r.len(),
{
    if r.len() == 0 {
        0
    } else {
        row_cost(r.drop_last()) + field_cost(r.last())
    }
}

pub open spec fn rows_cost(rows: Seq<Seq<FieldModel>>) -> int
    decreases rows.len(),
{
    if rows.len() == 0 {
        0
    } else {
        rows_cost(rows.drop_last()) + row_cost(rows.last())
    }
}

/// `x`, or `usize::MAX` where it is larger.
pub open spec fn capped(x: int) -> int {
    if x > usize::MAX {
        usize::MAX as int
    } else {
        x
    }
}

proof fn lemma_row_cost_nonneg(r: Seq<FieldModel>)
    ensures
        row_cost(r) >= 0,
    decreases r.len(),
{
    if r.len() > 0 {
        lemma_row_cost_nonneg(r.drop_last());
    }
}

fn field_size(f: &FieldValue) -> (r: usize)
    ensures
        r as int == capped(field_cost(f@)),
{
    match f {
        FieldValue::Null => NULL_COST + STRING_OVERHEAD,
        FieldValue::Str(s) => {
            broadcast use vstd::slice::axiom_spec_len;

            let n = s.as_str().as_bytes().len();
            if n > usize::MAX - STRING_OVERHEAD {
                usize::MAX
            } else {
                n + STRING_OVERHEAD
            }
        },
        FieldValue::Int(_) => 8,
        FieldValue::Float(_) => 8,
        FieldValue::Bool(_) => 1,
        FieldValue::Date(_) => 4,
        FieldValue::Timestamp(_) => 8,
    }
}

/// The estimated in-memory size of a row: the sum of its fields' costs, capped at
/// `usize::MAX`.
pub fn estimate_row_size_efficient(row: &Row) -> (r: usize)
    ensures
        r as int == capped(row_cost(row_view(*row))),
{
    let ghost rv = row_view(*row);
    let mut total: usize = 0;
    let mut i: usize = 0;
    while i < row.len()
        invariant
            i <= row@.len(),
            rv == row_view(*row),
            total as int == capped(row_cost(rv.take(i as int))),
        decreases row.len() - i,
    {
        let c = field_size(&row[i]);
        proof {
            assert(rv.take(i + 1).drop_last() =~= rv.take(i as int));
            assert(rv.take(i + 1).last() == row@[i as int]@);
            lemma_row_cost_nonneg(rv.take(i as int));
        }
        total = if total > usize::MAX - c {
            usize::MAX
        } else {
            total + c
        };
        i = i + 1;
    }
    assert(rv.take(row@.len() as int) =~= rv);
    total
}

/// A flushed group of rows, in input order, with their estimated size.
pub struct Batch {
    pub rows: Vec<Row>,
    pub estimated_bytes: usize,
}

/// Collects decoded rows and hands them on in batches bounded by a row count and
/// an estimated byte size.
pub struct Accumulator {
    rows: Vec<Row>,
    bytes: usize,
    max_rows: usize,
    max_bytes: usize,
}

impl Accumulator {
    /// The rows held and not yet flushed.
    pub closed spec fn pending(&self) -> Seq<Seq<FieldModel>> {
        rows_view(self.rows@)
    }

    pub closed spec fn max_rows(&self) -> usize {
        self.max_rows
    }

    pub closed spec fn max_bytes(&self) -> usize {
        self.max_bytes
    }

    /// The held rows stay below both bounds, and the size estimate is their cost.
    pub closed spec fn wf(&self) -> bool {
        &&& self.max_rows >= 1
        &&& self.max_bytes >= 1
        &&& self.rows@.len() < self.max_rows
        &&& self.bytes < self.max_bytes
        &&& self.bytes as int == capped(rows_cost(rows_view(self.rows@)))
    }

    /// The estimated size of the held rows.
    pub closed spec fn pending_bytes(&self) -> int {
        self.bytes as int
    }

    /// What the well-formedness of an accumulator tells its users: the rows held stay
    /// below the row bound and their estimated size below the byte bound.
    pub proof fn lemma_bounds(&self)
        requires
            self.wf(),
        ensures
            1 <= self.max_rows(),
            1 <= self.max_bytes(),
            self.pending().len() < self.max_rows(),
            0 <= self.pending_bytes() < self.max_bytes(),
            self.pending_bytes() == capped(rows_cost(self.pending())),
    {
        lemma_rows_cost_nonneg(self.pending());
    }

    pub fn new(config: &PipelineConfig) -> (r: Self)
        requires
            config.valid(),
        ensures
            r.wf(),
            r.pending() == Seq::<Seq<FieldModel>>::empty(),
            r.max_rows() == config.max_rows,
            r.max_bytes() == config.max_bytes,
    {
        let r = Accumulator {
            rows: Vec::new(),
            bytes: 0,
            max_rows: config.max_rows,
            max_bytes: config.max_bytes,
        };
        assert(rows_view(r.rows@) =~= Seq::<Seq<FieldModel>>::empty());
        r
    }

    /// The number of rows held.
    pub fn len(&self) -> (r: usize)
        requires
            self.wf(),
        ensures
            r == self.pending().len(),
    {
        self.rows.len()
    }

    /// Appends a row. Where the held rows then reach the row bound, or their estimated
    /// size reaches the byte bound, they leave as one batch and the accumulator starts
    /// over empty.
    pub fn push(&mut self, row: Row) -> (r: Option<Batch>)
        requires
            old(self).wf(),
        ensures
            final(self).wf(),
            final(self).max_rows() == old(self).max_rows(),
            final(self).max_bytes() == old(self).max_bytes(),
            ({
                let all = old(self).pending().push(row_view(row));
                let size = capped(rows_cost(all));
                if all.len() >= old(self).max_rows() || size >= old(self).max_bytes() {
                    &&& r is Some
                    &&& rows_view(r->0.rows@) == all
                    &&& r->0.rows@.len() <= old(self).max_rows()
                    &&& r->0.estimated_bytes as int == size
                    &&& final(self).pending() == Seq::<Seq<FieldModel>>::empty()
                } else {
                    &&& r is None
                    &&& final(self).pending() == all
                }
            }),
    {
        let ghost before = rows_view(self.rows@);
        let c = estimate_row_size_efficient(&row);
        proof {
            lemma_rows_cost_nonneg(before);
            lemma_row_cost_nonneg(row_view(row));
        }
        let size = if self.bytes > usize::MAX - c {
            usize::MAX
        } else {
            self.bytes + c
        };
        self.rows.push(row);
        let ghost all = before.push(row_view(row));
        assert(rows_view(self.rows@) =~= all);
        assert(all.drop_last() =~= before);
        if self.rows.len() >= self.max_rows || size >= self.max_bytes {
            let mut rows: Vec<Row> = Vec::new();
            std::mem::swap(&mut rows, &mut self.rows);
            self.bytes = 0;
            assert(rows_view(self.rows@) =~= Seq::<Seq<FieldModel>>::empty());
            Some(Batch { rows, estimated_bytes: size })
        } else {
            self.bytes = size;
            None
        }
    }

    /// Hands out the held rows as a last batch, if any are held; the accumulator is
    /// empty afterwards.
    pub fn take_rest(&mut self) -> (r: Option<Batch>)
        requires
            old(self).wf(),
        ensures
            final(self).wf(),
            final(self).pending() == Seq::<Seq<FieldModel>>::empty(),
            final(self).max_rows() == old(self).max_rows(),
            final(self).max_bytes() == old(self).max_bytes(),
            match r {
                Some(b) => old(self).pending().len() > 0 && rows_view(b.rows@) == old(
                    self,
                ).pending() && b.estimated_bytes == old(self).pending_bytes() && b.rows@.len()
                    < old(self).max_rows(),
                None => old(self).pending().len() == 0,
            },
    {
        if self.rows.len() == 0 {
            assert(rows_view(self.rows@) =~= Seq::<Seq<FieldModel>>::empty());
            return None;
        }
        let mut rows: Vec<Row> = Vec::new();
        std::mem::swap(&mut rows, &mut self.rows);
        let bytes = self.bytes;
        self.bytes = 0;
        assert(rows_view(self.rows@) =~= Seq::<Seq<FieldModel>>::empty());
        Some(Batch { rows, estimated_bytes: bytes })
    }
}

proof fn lemma_rows_cost_nonneg(rows: Seq<Seq<FieldModel>>)
    ensures
        rows_cost(rows) >= 0,
    decreases rows.len(),
{
    if rows.len() > 0 {
        lemma_rows_cost_nonneg(rows.drop_last());
        lemma_row_cost_nonneg(rows.last());
    }
}

} // verus!
