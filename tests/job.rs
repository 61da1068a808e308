use csv_columnar::{final_status, job_partition_key, ConvertError, Job, JobStatus, MissingField};

#[test]
fn partition_key_prefixes_the_id() {
    assert_eq!(job_partition_key("abc-123"), "JOB-abc-123");
    assert_eq!(job_partition_key(""), "JOB-");
}

#[test]
fn status_words() {
    assert_eq!(JobStatus::Pending.as_str(), "pending");
    assert_eq!(JobStatus::Success.as_str(), "success");
    assert_eq!(JobStatus::Failed.as_str(), "failed");
}

#[test]
fn status_follows_the_outcome() {
    let ok: Result<u8, ConvertError> = Ok(1);
    assert_eq!(final_status(&ok), JobStatus::Success);
    for e in [ConvertError::Io, ConvertError::Schema, ConvertError::Format, ConvertError::Upload] {
        let r: Result<u8, ConvertError> = Err(e);
        assert_eq!(final_status(&r), JobStatus::Failed);
    }
}

#[test]
fn job_from_fields() {
    let s = |x: &str| Some(x.to_string());
    let j = Job::from_fields(s("JOB-1"), s("1"), s("pending"), s("ctx")).unwrap();
    assert_eq!((j.service.as_str(), j.serviceid.as_str(), j.status.as_str(), j.context.as_str()), ("JOB-1", "1", "pending", "ctx"));
    assert_eq!(Job::from_fields(None, None, s("x"), s("y")).unwrap_err(), MissingField::Service);
    assert_eq!(Job::from_fields(s("a"), None, None, s("y")).unwrap_err(), MissingField::ServiceId);
    assert_eq!(Job::from_fields(s("a"), s("b"), None, None).unwrap_err(), MissingField::Status);
    assert_eq!(Job::from_fields(s("a"), s("b"), s("c"), None).unwrap_err(), MissingField::Context);
}
