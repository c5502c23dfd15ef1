//! Tests of the ticket-server formatter and the retrieval decision for
//! archived storage classes.

use htsget::s3::{Retrieval, StorageClass, check_restore_header, get_retrieval_type};
use htsget::ticket_server::HttpsFormatter;

#[test]
fn https_formatter_format_authority() {
    let formatter = HttpsFormatter::new("127.0.0.1", "8080");
    assert_eq!(formatter.format_url("/path"), "https://127.0.0.1:8080/path")
}

#[test]
fn restore_header_finished() {
    let result = check_restore_header(
        Some("ongoing-request=\"false\", expiry-date=\"Fri, 21 Dec 2012 00:00:00 GMT\"".to_string()),
        StorageClass::Glacier,
    );
    assert_eq!(result, Retrieval::Immediate(StorageClass::Glacier));
}

#[test]
fn restore_header_ongoing() {
    let result = check_restore_header(
        Some("ongoing-request=\"true\"".to_string()),
        StorageClass::Glacier,
    );
    assert_eq!(result, Retrieval::Delayed(StorageClass::Glacier));
}

#[test]
fn restore_header_absent() {
    let result = check_restore_header(None, StorageClass::DeepArchive);
    assert_eq!(result, Retrieval::Delayed(StorageClass::DeepArchive));
}

#[test]
fn retrieval_type_standard_immediate() {
    let result = get_retrieval_type(StorageClass::Standard, None, false);
    assert_eq!(result, Retrieval::Immediate(StorageClass::Standard));
}

#[test]
fn retrieval_type_intelligent_tiering_archived() {
    let result = get_retrieval_type(StorageClass::IntelligentTiering, None, true);
    assert_eq!(result, Retrieval::Delayed(StorageClass::IntelligentTiering));
}

#[test]
fn retrieval_type_intelligent_tiering_hot() {
    let result = get_retrieval_type(StorageClass::IntelligentTiering, None, false);
    assert_eq!(result, Retrieval::Immediate(StorageClass::IntelligentTiering));
}
