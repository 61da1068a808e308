use vstd::prelude::*;

verus! {

/// The kinds of failure of a conversion job.
#[derive(Clone, Copy, Debug, PartialEq, Eq, Structural)]
pub enum ConvertError {
    /// Reading the source failed.
    Io,
    /// The input has no usable header line.
    Schema,
    /// One row could not be split into fields; the row is skipped.
    Parse,
    /// Columnar encoding failed, or was asked of an empty batch.
    Format,
    /// Handing the finished output to the sink failed.
    Upload,
}

} // verus!
