use vstd::prelude::*;
use crate::batch::{capped, Batch, PipelineConfig};
use crate::converter::{batch_rows, decoded_rows, failed_lines, lemma_conversion_keeps_order, Converter};
use crate::error::ConvertError;
use crate::queue::{lemma_backpressure_bound, lemma_delivery_in_order, BatchQueue, Handoff};
use crate::decode::{binding_of, header_names, index_view, strings_view};
use crate::text::is_blank;
use crate::types::{rows_view, ColumnDefinition, FieldModel};

verus! {

/// What the producer stage does next.
#[derive(Clone, Copy, Debug, PartialEq, Eq, Structural)]
pub enum Step {
    /// Read the next line.
    Continue,
    /// The queue is full: wait for the consumer to take a batch, then retry.
    Wait,
    /// The consumer has stopped: read no further and end without an error.
    Stopped,
}

/// The rows of each batch.
pub open spec fn batches_rows(bs: Seq<Batch>) -> Seq<Seq<Seq<FieldModel>>> {
    bs.map_values(|b: Batch| rows_view(b.rows@))
}

proof fn lemma_batches_rows_push(bs: Seq<Batch>, b: Batch)
    ensures
        batches_rows(bs.push(b)) == batches_rows(bs).push(rows_view(b.rows@)),
        batches_rows(bs) + Seq::<Seq<Seq<FieldModel>>>::empty() == batches_rows(bs),
        batches_rows(bs) + seq![rows_view(b.rows@)] == batches_rows(bs).push(rows_view(b.rows@)),
{
    assert(batches_rows(bs.push(b)) =~= batches_rows(bs).push(rows_view(b.rows@)));
    assert(batches_rows(bs) + Seq::<Seq<Seq<FieldModel>>>::empty() =~= batches_rows(bs));
    assert(batches_rows(bs) + seq![rows_view(b.rows@)] =~= batches_rows(bs).push(rows_view(b.rows@)));
}

/// The producer stage: decodes lines into batches and hands them to the queue,
/// holding at most one flushed batch while the queue is full.
pub struct Producer {
    converter: Converter,
    held: Option<Batch>,
}

impl Producer {
    pub closed spec fn columns(&self) -> Seq<ColumnDefinition> {
        self.converter.columns()
    }

    pub closed spec fn binding(&self) -> Seq<Option<usize>> {
        self.converter.binding()
    }

    pub closed spec fn has_header(&self) -> bool {
        self.converter.has_header()
    }

    /// The data lines read so far.
    pub closed spec fn data_lines(&self) -> Seq<Seq<char>> {
        self.converter.data_lines()
    }

    /// The column names that the header line gave.
    pub closed spec fn header(&self) -> Seq<Seq<char>> {
        self.converter.header()
    }

    /// The rows of every batch flushed so far, in order.
    pub closed spec fn flushed(&self) -> Seq<Seq<Seq<FieldModel>>> {
        self.converter.emitted()
    }

    /// A flushed batch waits for room in the queue.
    pub closed spec fn is_waiting(&self) -> bool {
        self.held is Some
    }

    /// Decoded rows not yet flushed into a batch.
    pub closed spec fn pending(&self) -> Seq<Seq<FieldModel>> {
        self.converter.pending()
    }

    /// Batches the producer has in memory: the one it waits to hand off, and the one
    /// it is building.
    pub closed spec fn batches_held(&self) -> nat {
        (if self.held is Some {
            1nat
        } else {
            0nat
        }) + (if self.converter.pending().len() > 0 {
            1nat
        } else {
            0nat
        })
    }

    /// The producer is consistent with the queue it feeds: while it waits it builds
    /// nothing, and the batches it flushed are those the queue accepted, then the one
    /// it holds.
    pub closed spec fn linked(&self, q: BatchQueue<Batch>) -> bool {
        &&& self.converter.wf()
        &&& q.wf()
        &&& (self.held is Some ==> self.converter.pending().len() == 0)
        &&& self.converter.emitted() == batches_rows(q.accepted()) + match self.held {
            Some(b) => seq![rows_view(b.rows@)],
            None => Seq::empty(),
        }
    }

    pub fn new(columns: Vec<ColumnDefinition>, config: &PipelineConfig, q: &BatchQueue<Batch>) -> (r:
        Self)
        requires
            config.valid(),
            q.wf(),
            q.accepted() == Seq::<Batch>::empty(),
        ensures
            r.linked(*q),
            r.columns() == columns@,
            !r.has_header(),
            !r.is_waiting(),
            r.data_lines() == Seq::<Seq<char>>::empty(),
    {
        let r = Producer { converter: Converter::new(columns, config), held: None };
        assert(batches_rows(q.accepted()) + Seq::empty() =~= Seq::<Seq<Seq<FieldModel>>>::empty());
        r
    }

    pub fn holds_batch(&self) -> (r: bool)
        ensures
            r == self.is_waiting(),
    {
        self.held.is_some()
    }

    /// Rows skipped so far because their line could not be split.
    pub fn skipped_rows(&self, q: &BatchQueue<Batch>) -> (r: usize)
        requires
            self.linked(*q),
        ensures
            r as int == crate::batch::capped(
                failed_lines(self.data_lines(), self.columns(), self.binding()) as int,
            ),
    {
        self.converter.skipped_rows()
    }

    /// Reads one line (see `Converter::feed_line`); a batch that the line completes
    /// is offered to the queue at once: `Continue` once queued, `Wait` where the
    /// queue is full, `Stopped` where it is closed.
    pub fn feed_line(&mut self, line: &str, q: &mut BatchQueue<Batch>) -> (r: Result<Step, ConvertError>)
        requires
            old(self).linked(*old(q)),
            !old(self).is_waiting(),
        ensures
            final(self).linked(*final(q)),
            final(self).columns() == old(self).columns(),
            final(q).depth() == old(q).depth(),
            final(q).is_closed() == old(q).is_closed(),
            final(q).delivered() == old(q).delivered(),
            is_blank(line@) ==> {
                &&& r == Ok::<Step, ConvertError>(Step::Continue)
                &&& *final(self) == *old(self)
                &&& *final(q) == *old(q)
            },
            !is_blank(line@) && !old(self).has_header() ==> match header_names(line@) {
                Some(h) => {
                    &&& r == Ok::<Step, ConvertError>(Step::Continue)
                    &&& final(self).has_header()
                    &&& final(self).header() == h
                    &&& final(self).binding().len() == final(self).columns().len()
                    &&& final(self).binding().map_values(|o: Option<usize>| index_view(o))
                        == binding_of(final(self).columns(), h)
                    &&& final(self).data_lines() == old(self).data_lines()
                    &&& final(self).flushed() == old(self).flushed()
                    &&& !final(self).is_waiting()
                    &&& *final(q) == *old(q)
                },
                None => {
                    &&& r == Err::<Step, ConvertError>(ConvertError::Schema)
                    &&& *final(self) == *old(self)
                    &&& *final(q) == *old(q)
                },
            },
            !is_blank(line@) && old(self).has_header() ==> {
                &&& r is Ok
                &&& final(self).has_header()
                &&& final(self).header() == old(self).header()
                &&& final(self).binding() == old(self).binding()
                &&& final(self).data_lines() == old(self).data_lines().push(line@)
                &&& (r->Ok_0 != Step::Continue <==> final(self).is_waiting())
                &&& if final(self).flushed() == old(self).flushed() {
                    &&& r->Ok_0 == Step::Continue
                    &&& *final(q) == *old(q)
                } else {
                    &&& final(self).flushed().len() == old(self).flushed().len() + 1
                    &&& (r->Ok_0 == Step::Stopped <==> old(q).is_closed())
                    &&& (r->Ok_0 == Step::Wait <==> !old(q).is_closed() && old(q).view().len()
                        == old(q).depth())
                }
            },
    {
        proof {
            assert(batches_rows(q.accepted()) + Seq::<Seq<Seq<FieldModel>>>::empty() =~= batches_rows(q.accepted()));
        }
        match self.converter.feed_line(line) {
            Ok(Some(batch)) => Ok(self.offer(batch, q)),
            Ok(None) => Ok(Step::Continue),
            Err(e) => Err(e),
        }
    }

    /// Offers the held batch again.
    pub fn retry(&mut self, q: &mut BatchQueue<Batch>) -> (r: Step)
        requires
            old(self).linked(*old(q)),
            old(self).is_waiting(),
        ensures
            final(self).linked(*final(q)),
            final(self).columns() == old(self).columns(),
            final(self).binding() == old(self).binding(),
            final(self).has_header() == old(self).has_header(),
            final(self).data_lines() == old(self).data_lines(),
            final(q).depth() == old(q).depth(),
            final(q).is_closed() == old(q).is_closed(),
            final(q).delivered() == old(q).delivered(),
            r != Step::Continue <==> final(self).is_waiting(),
            r == Step::Stopped <==> old(q).is_closed(),
            r == Step::Wait <==> !old(q).is_closed() && old(q).view().len() == old(q).depth(),
    {
        let batch = self.held.take().unwrap();
        proof {
            lemma_batches_rows_push(q.accepted(), batch);
        }
        self.offer(batch, q)
    }

    /// Ends the input (see `Converter::finish`) and offers the last batch, if any.
    pub fn finish(&mut self, q: &mut BatchQueue<Batch>) -> (r: Result<Step, ConvertError>)
        requires
            old(self).linked(*old(q)),
            !old(self).is_waiting(),
        ensures
            final(self).linked(*final(q)),
            final(self).columns() == old(self).columns(),
            final(self).binding() == old(self).binding(),
            final(self).header() == old(self).header(),
            final(self).has_header() == old(self).has_header(),
            final(self).data_lines() == old(self).data_lines(),
            final(self).pending().len() == 0,
            final(q).depth() == old(q).depth(),
            final(q).is_closed() == old(q).is_closed(),
            final(q).delivered() == old(q).delivered(),
            !old(self).has_header() ==> {
                &&& r == Err::<Step, ConvertError>(ConvertError::Schema)
                &&& *final(self) == *old(self)
                &&& *final(q) == *old(q)
            },
            old(self).has_header() ==> {
                &&& r is Ok
                &&& (r->Ok_0 != Step::Continue <==> final(self).is_waiting())
                &&& if old(self).pending().len() == 0 {
                    &&& r->Ok_0 == Step::Continue
                    &&& final(self).flushed() == old(self).flushed()
                    &&& *final(q) == *old(q)
                } else {
                    &&& final(self).flushed() == old(self).flushed().push(old(self).pending())
                    &&& (r->Ok_0 == Step::Stopped <==> old(q).is_closed())
                    &&& (r->Ok_0 == Step::Wait <==> !old(q).is_closed() && old(q).view().len()
                        == old(q).depth())
                }
            },
    {
        proof {
            assert(batches_rows(q.accepted()) + Seq::<Seq<Seq<FieldModel>>>::empty() =~= batches_rows(q.accepted()));
        }
        match self.converter.finish() {
            Ok(Some(batch)) => Ok(self.offer(batch, q)),
            Ok(None) => Ok(Step::Continue),
            Err(e) => Err(e),
        }
    }

    /// Offers a flushed batch; keeps it where the queue is full or closed.
    fn offer(&mut self, batch: Batch, q: &mut BatchQueue<Batch>) -> (r: Step)
        requires
            old(self).held is None,
            old(self).converter.wf(),
            old(self).converter.pending().len() == 0,
            old(q).wf(),
            old(self).converter.emitted() == batches_rows(old(q).accepted()).push(
                rows_view(batch.rows@),
            ),
        ensures
            final(self).linked(*final(q)),
            final(self).converter == old(self).converter,
            final(q).depth() == old(q).depth(),
            final(q).is_closed() == old(q).is_closed(),
            final(q).delivered() == old(q).delivered(),
            r != Step::Continue <==> final(self).is_waiting(),
            r == Step::Stopped <==> old(q).is_closed(),
            r == Step::Wait <==> !old(q).is_closed() && old(q).view().len() == old(q).depth(),
            r == Step::Continue ==> final(q).view() == old(q).view().push(batch),
            r != Step::Continue ==> final(q).view() == old(q).view(),
    {
        let ghost acc0 = q.accepted();
        proof {
            lemma_batches_rows_push(acc0, batch);
        }
        match q.try_push(batch) {
            Handoff::Accepted => {
                proof {
                    lemma_batches_rows_push(q.accepted(), batch);
                }
                Step::Continue
            },
            Handoff::Full(b) => {
                self.held = Some(b);
                Step::Wait
            },
            Handoff::Closed(b) => {
                // the consumer is gone; the batch stays with the producer, which stops
                self.held = Some(b);
                Step::Stopped
            },
        }
    }
}

/// Backpressure bounds memory: the batches waiting in the queue plus those the
/// producer holds (one waiting for room, or one being built, never both) never
/// exceed the queue depth plus one.
pub proof fn lemma_memory_bound(p: &Producer, q: &BatchQueue<Batch>)
    requires
        p.linked(*q),
    ensures
        p.batches_held() <= 1,
        q.view().len() + p.batches_held() <= q.depth() + 1,
{
    lemma_backpressure_bound(q, true);
}

/// Order is kept from input to consumer: once the input is finished, nothing is
/// held back and the queue is drained, the batches delivered, in delivery order,
/// hold exactly the decoded rows of the data lines in input order.
pub proof fn lemma_end_to_end_order(p: &Producer, q: &BatchQueue<Batch>)
    requires
        p.linked(*q),
        !p.is_waiting(),
        p.pending().len() == 0,
        q.view().len() == 0,
    ensures
        batch_rows(batches_rows(q.delivered())) == decoded_rows(p.data_lines(), p.columns(), p.binding()),
{
    lemma_delivery_in_order(q);
    lemma_conversion_keeps_order(&p.converter);
    let e = batches_rows(q.accepted());
    assert(e + Seq::<Seq<Seq<FieldModel>>>::empty() =~= e);
    assert(batch_rows(e) + Seq::<Seq<FieldModel>>::empty() =~= batch_rows(e));
}

/// How an input divides: its first non-blank line is the header, the later
/// non-blank lines are the data lines.
pub struct InputShape {
    pub header: Option<Seq<char>>,
    pub data: Seq<Seq<char>>,
}

pub open spec fn input_shape(lines: Seq<Seq<char>>) -> InputShape
    decreases lines.len(),
{
    if lines.len() == 0 {
        InputShape { header: None, data: Seq::empty() }
    } else {
        let prev = input_shape(lines.drop_last());
        let l = lines.last();
        if is_blank(l) {
            prev
        } else if prev.header is None {
            InputShape { header: Some(l), data: Seq::empty() }
        } else {
            InputShape { header: prev.header, data: prev.data.push(l) }
        }
    }
}

/// Once a prefix of the input has a header line, so has every longer prefix: the
/// same one.
proof fn lemma_header_stable(lines: Seq<Seq<char>>, k: int)
    requires
        0 <= k <= lines.len(),
        input_shape(lines.take(k)).header is Some,
    ensures
        input_shape(lines).header == input_shape(lines.take(k)).header,
    decreases lines.len(),
{
    if k < lines.len() {
        assert(lines.drop_last().take(k) =~= lines.take(k));
        lemma_header_stable(lines.drop_last(), k);
    } else {
        assert(lines.take(k) =~= lines);
    }
}

/// A binding of source positions, as unsigned positions.
pub open spec fn usize_binding(b: Seq<Option<int>>) -> Seq<Option<usize>> {
    b.map_values(|o: Option<int>| match o {
        Some(j) => Some(j as usize),
        None => None,
    })
}

/// The outcome of converting a whole input.
pub struct Conversion {
    /// The batches, in the order the consumer received them.
    pub batches: Vec<Batch>,
    /// Data lines skipped because they could not be split.
    pub skipped_rows: usize,
}

/// Hands every waiting batch to the consumer's list, oldest first.
fn drain(q: &mut BatchQueue<Batch>, out: &mut Vec<Batch>)
    requires
        old(q).wf(),
    ensures
        final(q).wf(),
        final(q).view().len() == 0,
        final(q).depth() == old(q).depth(),
        final(q).is_closed() == old(q).is_closed(),
        final(q).accepted() == old(q).accepted(),
        final(q).delivered() == old(q).delivered() + old(q).view(),
        final(out)@ == old(out)@ + old(q).view(),
{
    let ghost q0 = q.view();
    let ghost d0 = q.delivered();
    let ghost o0 = out@;
    assert(q.delivered() + q.view() =~= d0 + q0);
    assert(out@ + q.view() =~= o0 + q0);
    while q.len() > 0
        invariant
            q.wf(),
            q.depth() == old(q).depth(),
            q.is_closed() == old(q).is_closed(),
            q.accepted() == old(q).accepted(),
            q0 == old(q).view(),
            d0 == old(q).delivered(),
            o0 == old(out)@,
            q.delivered() + q.view() == d0 + q0,
            out@ + q.view() == o0 + q0,
        decreases q.view().len(),
    {
        let ghost v = q.view();
        let ghost d = q.delivered();
        let ghost o = out@;
        match q.pop() {
            Some(b) => {
                out.push(b);
                assert(v =~= seq![b] + q.view());
                assert(q.delivered() + q.view() =~= d + v);
                assert(out@ + q.view() =~= o + v);
            },
            None => {},
        }
    }
    assert(q.delivered() =~= q.delivered() + q.view());
    assert(out@ =~= out@ + q.view());
}

/// An input with no header line yet has no data lines either.
proof fn lemma_no_header_no_data(lines: Seq<Seq<char>>)
    ensures
        input_shape(lines).header is None ==> input_shape(lines).data.len() == 0,
    decreases lines.len(),
{
    if lines.len() > 0 {
        lemma_no_header_no_data(lines.drop_last());
    }
}

/// Converts a whole input, one line after another, through the producer stage and
/// a queue that a consumer drains after every line. With a usable header line the
/// batches hold exactly the decoded rows of the data lines in input order, and the
/// skip count is the number of data lines that could not be split; an input without
/// one is a `ConvertError::Schema`.
pub fn run_conversion(lines: &Vec<String>, columns: Vec<ColumnDefinition>, config: &PipelineConfig) -> (r:
    Result<Conversion, ConvertError>)
    requires
        config.valid(),
    ensures
        ({
            let shape = input_shape(strings_view(lines@));
            match shape.header {
                None => r == Err::<Conversion, ConvertError>(ConvertError::Schema),
                Some(h) => match header_names(h) {
                    None => r == Err::<Conversion, ConvertError>(ConvertError::Schema),
                    Some(names) => {
                        let b = usize_binding(binding_of(columns@, names));
                        &&& r is Ok
                        &&& batch_rows(batches_rows(r->Ok_0.batches@)) == decoded_rows(
                            shape.data,
                            columns@,
                            b,
                        )
                        &&& r->Ok_0.skipped_rows as int == capped(
                            failed_lines(shape.data, columns@, b) as int,
                        )
                    },
                },
            }
        }),
{
    let ghost ls = strings_view(lines@);
    let ghost cols = columns@;
    let mut q: BatchQueue<Batch> = BatchQueue::new(config.queue_depth);
    let mut p = Producer::new(columns, config, &q);
    let mut out: Vec<Batch> = Vec::new();
    let mut i: usize = 0;
    assert(ls.take(0) =~= Seq::<Seq<char>>::empty());
    while i < lines.len()
        invariant
            i <= lines@.len(),
            ls == strings_view(lines@),
            p.linked(q),
            !p.is_waiting(),
            q.view().len() == 0,
            !q.is_closed(),
            q.depth() >= 1,
            out@ == q.delivered(),
            p.columns() == cols,
            (input_shape(ls.take(i as int)).header is None) == !p.has_header(),
            p.has_header() ==> {
                &&& header_names(input_shape(ls.take(i as int)).header->0) == Some(p.header())
                &&& p.binding().len() == cols.len()
                &&& p.binding().map_values(|o: Option<usize>| index_view(o)) == binding_of(
                    cols,
                    p.header(),
                )
            },
            p.data_lines() == input_shape(ls.take(i as int)).data,
        decreases lines.len() - i,
    {
        let line = lines[i].as_str();
        assert(ls.take(i + 1).drop_last() =~= ls.take(i as int));
        assert(ls.take(i + 1).last() == line@);
        proof {
            lemma_no_header_no_data(ls.take(i as int));
        }
        match p.feed_line(line, &mut q) {
            Err(e) => {
                proof {
                    lemma_header_stable(ls, i + 1);
                }
                return Err(e);
            },
            Ok(_) => {},
        }
        drain(&mut q, &mut out);
        i = i + 1;
    }
    assert(ls.take(lines@.len() as int) =~= ls);
    match p.finish(&mut q) {
        Err(e) => {
            return Err(e);
        },
        Ok(_) => {},
    }
    drain(&mut q, &mut out);
    let skipped = p.skipped_rows(&q);
    proof {
        lemma_end_to_end_order(&p, &q);
        let b = usize_binding(binding_of(cols, p.header()));
        assert(p.binding() =~= b) by {
            assert forall|k: int| 0 <= k < p.binding().len() implies p.binding()[k] == b[k] by {
                let bo = binding_of(cols, p.header());
                assert(p.binding().map_values(|o: Option<usize>| index_view(o))[k] == index_view(
                    p.binding()[k],
                ));
                assert(bo[k] == index_view(p.binding()[k]));
                assert(b[k] == match bo[k] {
                    Some(j) => Some(j as usize),
                    None => None::<usize>,
                });
            }
        }
    }
    Ok(Conversion { batches: out, skipped_rows: skipped })
}

} // verus!
