use vstd::prelude::*;
use crate::error::ConvertError;
use crate::text::{chars_of, push_char};

verus! {

/// The state of a conversion job as the status store records it.
#[derive(Clone, Copy, Debug, PartialEq, Eq, Structural)]
pub enum JobStatus {
    Pending,
    Success,
    Failed,
}

pub open spec fn status_label(s: JobStatus) -> Seq<char> {
    match s {
        JobStatus::Pending => "pending"@,
        JobStatus::Success => "success"@,
        JobStatus::Failed => "failed"@,
    }
}

impl JobStatus {
    /// The word the status store keeps for this status.
    pub fn as_str(&self) -> (r: &'static str)
        ensures
            r@ == status_label(*self),
    {
        match self {
            JobStatus::Pending => "pending",
            JobStatus::Success => "success",
            JobStatus::Failed => "failed",
        }
    }
}

/// The status a job ends in: success when the conversion returned, whatever rows it
/// skipped as parse errors; failed on any error that reached the job.
pub fn final_status<T>(outcome: &Result<T, ConvertError>) -> (r: JobStatus)
    ensures
        r == (if outcome is Ok {
            JobStatus::Success
        } else {
            JobStatus::Failed
        }),
{
    match outcome {
        Ok(_) => JobStatus::Success,
        Err(_) => JobStatus::Failed,
    }
}

/// The status store's partition key of a job: `JOB-` then the job id.
pub fn job_partition_key(job_id: &str) -> (r: String)
    ensures
        r@ == "JOB-"@ + job_id@,
{
    let prefix = chars_of("JOB-");
    let id = chars_of(job_id);
    let mut r = String::new();
    let mut i: usize = 0;
    while i < prefix.len()
        invariant
            i <= prefix@.len(),
            r@ == prefix@.take(i as int),
        decreases prefix.len() - i,
    {
        push_char(&mut r, prefix[i]);
        assert(prefix@.take(i + 1) =~= prefix@.take(i as int).push(prefix@[i as int]));
        i = i + 1;
    }
    assert(prefix@.take(prefix@.len() as int) =~= prefix@);
    let mut j: usize = 0;
    while j < id.len()
        invariant
            j <= id@.len(),
            r@ == prefix@ + id@.take(j as int),
        decreases id.len() - j,
    {
        push_char(&mut r, id[j]);
        assert(prefix@ + id@.take(j + 1) =~= (prefix@ + id@.take(j as int)).push(id@[j as int]));
        j = j + 1;
    }
    assert(id@.take(id@.len() as int) =~= id@);
    r
}

/// A job record of the status store.
#[derive(Clone, Debug)]
pub struct Job {
    pub service: String,
    pub serviceid: String,
    pub status: String,
    pub context: String,
}

/// The first field, in record order, that a job record lacks.
#[derive(Clone, Copy, Debug, PartialEq, Eq, Structural)]
pub enum MissingField {
    Service,
    ServiceId,
    Status,
    Context,
}

impl Job {
    /// A job from the text fields of a stored record; the first absent field, in the
    /// order service, service id, status, context, is the error.
    pub fn from_fields(
        service: Option<String>,
        serviceid: Option<String>,
        status: Option<String>,
        context: Option<String>,
    ) -> (r: Result<Job, MissingField>)
        ensures
            match r {
                Ok(j) => service == Some(j.service) && serviceid == Some(j.serviceid) && status
                    == Some(j.status) && context == Some(j.context),
                Err(e) => e == (if service is None {
                    MissingField::Service
                } else if serviceid is None {
                    MissingField::ServiceId
                } else if status is None {
                    MissingField::Status
                } else {
                    MissingField::Context
                }) && (service is None || serviceid is None || status is None || context is None),
            },
    {
        let service = match service {
            Some(s) => s,
            None => {
                return Err(MissingField::Service);
            },
        };
        let serviceid = match serviceid {
            Some(s) => s,
            None => {
                return Err(MissingField::ServiceId);
            },
        };
        let status = match status {
            Some(s) => s,
            None => {
                return Err(MissingField::Status);
            },
        };
        let context = match context {
            Some(s) => s,
            None => {
                return Err(MissingField::Context);
            },
        };
        Ok(Job { service, serviceid, status, context })
    }
}

} // verus!
