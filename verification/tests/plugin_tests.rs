use pact_protobuf_plugin::metadata::{code_desc, grpc_status, is_special_metadata_key, string_to_code, GrpcCode};
use pact_protobuf_plugin::plugin::{check_credentials, integer_value, should_shut_down, update_access_time, AuthError};

#[test]
fn integer_value_reads_an_integer() {
    assert_eq!(integer_value("100"), Ok(100));
    assert_eq!(integer_value("+7"), Ok(7));
}

#[test]
fn integer_value_refuses_other_text() {
    let err = integer_value("ten").unwrap_err();
    assert!(err.starts_with("'ten' is not a valid integer value: "));
    assert!(integer_value("").is_err());
    assert!(integer_value("18446744073709551616").is_err());
}

#[test]
fn access_time_and_shutdown() {
    let mut timer = None;
    assert!(!should_shut_down(timer, 1_000_000, 600));
    update_access_time(&mut timer, 1_000);
    assert_eq!(timer, Some(1_000));
    assert!(!should_shut_down(timer, 601_000, 600));
    assert!(!should_shut_down(timer, 601_999, 600));
    assert!(should_shut_down(timer, 602_000, 600));
}

#[test]
fn credentials_are_checked() {
    assert_eq!(check_credentials("key", None), Err(AuthError::NoCredentials));
    assert_eq!(check_credentials("key", Some(None)), Err(AuthError::UnreadableCredentials));
    assert_eq!(check_credentials("key", Some(Some("other"))), Err(AuthError::InvalidCredentials));
    assert_eq!(check_credentials("key", Some(Some("key"))), Ok(()));
    assert_eq!(AuthError::InvalidCredentials.message(), "invalid credentials supplied");
}

#[test]
fn grpc_status_test_no_status_set() {
    assert_eq!(grpc_status(None, None), None);
}

#[test]
fn grpc_status_test_status_set_by_value() {
    let status = grpc_status(Some("ABORTED"), Some("it is an error")).unwrap();
    assert_eq!(status.code, GrpcCode::Aborted);
    assert_eq!(status.message, "it is an error");
    let status = grpc_status(Some("ABORTED"), None).unwrap();
    assert_eq!(status.message, "No message set");
}

#[test]
fn grpc_status_test_invalid_status() {
    let status = grpc_status(Some("GGGH"), None).unwrap();
    assert_eq!(status.code, GrpcCode::Unknown);

    let status = grpc_status(Some("33"), None).unwrap();
    assert_eq!(status.code, GrpcCode::Unknown);

    let status = grpc_status(Some("ESTOPPED"), Some("it is an error")).unwrap();
    assert_eq!(status.code, GrpcCode::Unknown);
}

#[test]
fn string_to_code_reads_names_and_numbers() {
    assert_eq!(string_to_code("OK", "m"), None);
    assert_eq!(string_to_code("0", "m"), None);
    assert_eq!(string_to_code("5", "m").unwrap().code, GrpcCode::NotFound);
    assert_eq!(string_to_code("16", "m").unwrap().code, GrpcCode::Unauthenticated);
    assert_eq!(string_to_code("17", "m").unwrap().code, GrpcCode::Unknown);
    assert_eq!(string_to_code("UNAVAILABLE", "m").unwrap().code, GrpcCode::Unavailable);
    assert_eq!(code_desc(&GrpcCode::FailedPrecondition), "FAILED_PRECONDITION");
}

#[test]
fn special_metadata_keys() {
    assert!(is_special_metadata_key(&"content-type".to_string()));
    assert!(is_special_metadata_key(&"Content-Type".to_string()));
    assert!(is_special_metadata_key(&"CONTENTTYPE".to_string()));
    assert!(!is_special_metadata_key(&"content_type".to_string()));
    assert!(!is_special_metadata_key(&"x-content-type".to_string()));
}
