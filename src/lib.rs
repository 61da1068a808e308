//! Streaming conversion of comma-separated text into typed columns: header
//! binding by name, quote-aware field splitting, type-directed coercion with null
//! on failure, size-bounded batching, a bounded ordered hand-off queue, and
//! column materialization.
use vstd::prelude::*;

pub mod text;
pub mod types;
pub mod calendar;
pub mod coerce;
pub mod record;
pub mod error;
pub mod decode;
pub mod batch;
pub mod columns;
pub mod queue;
pub mod converter;
pub mod producer;
pub mod job;

pub use crate::batch::{estimate_row_size_efficient, Accumulator, Batch, PipelineConfig};
pub use crate::calendar::{calculate_days_since_epoch, is_leap_year};
pub use crate::coerce::{
    coerce_field, parse_boolean, parse_date_string, parse_date_to_days, parse_datetime_to_nanos,
    parse_iso_datetime, DateFormat,
};
pub use crate::columns::{create_arrays_from_rows_efficient, create_record_batch_efficient, ColumnData};
pub use crate::converter::Converter;
pub use crate::producer::{run_conversion, Conversion, Producer, Step};
pub use crate::decode::{bind_schema, parse_csv_headers, parse_csv_row_efficient};
pub use crate::error::ConvertError;
pub use crate::job::{final_status, job_partition_key, Job, JobStatus, MissingField};
pub use crate::queue::{BatchQueue, Handoff};
pub use crate::types::{ColumnDefinition, DataType, FieldValue, PhysicalType, Row};

verus! {

} // verus!
