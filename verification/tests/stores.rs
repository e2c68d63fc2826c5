use ubiblk::archive::fs_store::{
    delete_goes_on, temp_path, DeleteOutcome, FileSystemStore, PutFailure, PutStep,
};
use ubiblk::archive::s3_store::{
    delete_result, describe_keys, format_s3_error, worker_count, FailedKey, S3Failure,
};

#[test]
fn temp_path_appends_tmp_to_the_file_name() {
    assert_eq!(temp_path("/store/dev/12"), "/store/dev/12.tmp");
}

fn run(answers: &[bool]) -> PutStep {
    let mut step = PutStep::first();
    for ok in answers {
        step = step.next(*ok);
    }
    step
}

#[test]
fn a_put_goes_through_a_temporary_file() {
    assert_eq!(run(&[]), PutStep::CreateParent);
    assert_eq!(run(&[true]), PutStep::WriteTemp);
    assert_eq!(run(&[true, true]), PutStep::RenameOver);
    assert_eq!(run(&[true, true, true]), PutStep::Stored);
}

#[test]
fn a_failed_put_removes_its_temporary_file() {
    assert_eq!(
        run(&[false]),
        PutStep::Refused {
            failure: PutFailure::CreateDir
        }
    );
    assert_eq!(
        run(&[true, false]),
        PutStep::RemoveTemp {
            failure: PutFailure::Write
        }
    );
    assert_eq!(
        run(&[true, true, false]),
        PutStep::RemoveTemp {
            failure: PutFailure::Rename
        }
    );
    for removed in [false, true] {
        assert_eq!(
            run(&[true, true, false, removed]),
            PutStep::Refused {
                failure: PutFailure::Rename
            }
        );
    }
}

#[test]
fn a_missing_object_does_not_stop_a_delete() {
    assert!(delete_goes_on(DeleteOutcome::Deleted));
    assert!(delete_goes_on(DeleteOutcome::Missing));
    assert!(!delete_goes_on(DeleteOutcome::Failed));
}

#[test]
fn finished_requests_are_reported_once() {
    let mut store = FileSystemStore::new("/store".to_string());
    store.put_finished("dev/1".to_string(), None);
    store.put_finished("dev/2".to_string(), Some(PutFailure::Rename));
    store.get_finished("dev/1".to_string(), Some(vec![1, 2]));
    assert_eq!(
        store.poll_puts(),
        vec![
            ("dev/1".to_string(), None),
            ("dev/2".to_string(), Some(PutFailure::Rename)),
        ]
    );
    assert!(store.poll_puts().is_empty());
    assert_eq!(
        store.poll_gets(),
        vec![("dev/1".to_string(), Some(vec![1, 2]))]
    );
    assert!(store.poll_gets().is_empty());
    assert_eq!(store.base_path, "/store");
}

#[test]
fn format_s3_error_includes_status_code_and_message() {
    let msg = format_s3_error(&S3Failure {
        operation: "PutObject".to_string(),
        key: "data/abc".to_string(),
        error: "fake service error".to_string(),
        status: Some(503),
        code: Some("SlowDown".to_string()),
        quoted_message: Some(format!("{:?}", "Please reduce your request rate.")),
        context: "fake service error".to_string(),
    });
    assert!(msg.contains("PutObject"), "missing op: {msg}");
    assert!(msg.contains("data/abc"), "missing key: {msg}");
    assert!(msg.contains("status=503"), "missing status: {msg}");
    assert!(msg.contains("code=SlowDown"), "missing code: {msg}");
    assert!(
        msg.contains("Please reduce your request rate."),
        "missing message: {msg}"
    );
    assert_eq!(
        msg,
        "PutObject failed for key 'data/abc': fake service error (status=503) code=SlowDown \
         message=\"Please reduce your request rate.\" — fake service error"
    );
}

#[test]
fn format_s3_error_handles_missing_metadata() {
    let msg = format_s3_error(&S3Failure {
        operation: "GetObject".to_string(),
        key: "metadata.json".to_string(),
        error: "fake service error".to_string(),
        status: None,
        code: None,
        quoted_message: None,
        context: "fake service error".to_string(),
    });
    assert!(msg.contains("GetObject"), "missing op: {msg}");
    assert!(msg.contains("metadata.json"), "missing key: {msg}");
    assert!(!msg.contains("status="), "should omit status: {msg}");
    assert!(!msg.contains("code="), "should omit code: {msg}");
}

#[test]
fn a_delete_is_described_by_its_first_key() {
    let keys = vec!["prefix/dev/0".to_string(), "prefix/dev/1".to_string()];
    assert_eq!(describe_keys(&keys), "2 keys from 'prefix/dev/0'");
    assert_eq!(describe_keys(&Vec::new()), "0 keys from ''");
}

#[test]
fn a_refused_delete_names_its_first_key() {
    let keys = vec!["prefix/dev/0".to_string()];
    let err = format_s3_error(&S3Failure {
        operation: "DeleteObjects".to_string(),
        key: describe_keys(&keys),
        error: "service error".to_string(),
        status: None,
        code: Some("AccessDenied".to_string()),
        quoted_message: Some("\"Access Denied\"".to_string()),
        context: "service error".to_string(),
    });
    assert!(err.contains("DeleteObjects failed"), "{err}");
    assert!(err.contains("1 keys from 'prefix/dev/0'"), "{err}");
    assert!(err.contains("code=AccessDenied"), "{err}");
}

#[test]
fn a_failed_key_fails_the_batch() {
    assert!(delete_result(2, &Vec::new()).is_ok());
    let failed = vec![FailedKey {
        key: Some("prefix/dev/1".to_string()),
        code: Some("InternalError".to_string()),
        message: None,
    }];
    let err = delete_result(2, &failed).unwrap_err();
    assert!(err.contains("left 1 of 2 keys undeleted"), "{err}");
    assert!(err.contains("'prefix/dev/1': InternalError"), "{err}");

    let failed = vec![
        FailedKey {
            key: None,
            code: None,
            message: Some("gone".to_string()),
        },
        FailedKey {
            key: Some("b".to_string()),
            code: None,
            message: None,
        },
    ];
    assert_eq!(
        delete_result(5, &failed).unwrap_err(),
        "DeleteObjects left 2 of 5 keys undeleted: '?': ? gone; 'b': ? "
    );
}

#[test]
fn the_worker_count_is_bounded() {
    assert_eq!(worker_count(0), 1);
    assert_eq!(worker_count(1), 1);
    assert_eq!(worker_count(128), 128);
    assert_eq!(worker_count(4000), 128);
}

/// The final name is a directory, so the rename fails after the temporary file
/// was written.
#[test]
fn put_failure_removes_its_tmp_file() {
    assert_eq!(
        run(&[true, true, false]),
        PutStep::RemoveTemp {
            failure: PutFailure::Rename
        }
    );
    let refused = run(&[true, true, false, true]);
    assert_eq!(
        refused,
        PutStep::Refused {
            failure: PutFailure::Rename
        }
    );
    match refused {
        PutStep::Refused { failure } => {
            let err = failure.describe("/store", "/store/obj");
            assert!(err.contains("Failed to rename"), "{err}");
        }
        _ => panic!("the put was refused"),
    }
}

#[test]
fn put_failures_in_words() {
    let text = |failure: PutFailure| failure.describe("/store/dev", "/store/dev/7");
    assert_eq!(
        text(PutFailure::CreateDir),
        "Failed to create dir /store/dev"
    );
    assert_eq!(
        text(PutFailure::Write),
        "Failed to write /store/dev/7.tmp"
    );
    assert_eq!(
        text(PutFailure::Rename),
        "Failed to rename /store/dev/7.tmp to /store/dev/7"
    );
}
