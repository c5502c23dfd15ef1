//! Tests of the CRAM engine over a synthetic CRAI.

use htsget::cram_search::{CraiRecord, resolve_cram_query};
use htsget::from_storage::{IndexData, ReferenceMeta, resolve_ticket};
use htsget::storage::BytesPosition;
use htsget::types::{Class, Format, HtsGetError, Query};

fn test_crai() -> Vec<CraiRecord> {
    vec![
        CraiRecord {
            ref_id: Some(0),
            align_start: 1,
            align_span: 1000,
            offset: 600,
            landmark: 0,
            slice_len: 100,
        },
        CraiRecord {
            ref_id: Some(0),
            align_start: 2001,
            align_span: 1000,
            offset: 1200,
            landmark: 0,
            slice_len: 100,
        },
    ]
}

fn cram_refs() -> Vec<ReferenceMeta> {
    vec![ReferenceMeta {
        name: "chr1".to_string(),
        len: Some(10000),
    }]
}

#[test]
fn cram_header_class_single_position() {
    let query = Query::new_with_defaults("id", Format::Cram).with_class(Class::Header);
    let positions = resolve_cram_query(&query, &cram_refs(), &test_crai(), 600, 5000).unwrap();
    assert_eq!(positions, vec![BytesPosition::new(None, Some(600), None)]);
}

#[test]
fn cram_all_is_whole_file() {
    let query = Query::new_with_defaults("id", Format::Cram);
    let positions = resolve_cram_query(&query, &cram_refs(), &test_crai(), 600, 5000).unwrap();
    assert_eq!(positions, vec![BytesPosition::new(None, Some(5000), None)]);
}

#[test]
fn cram_unknown_reference_not_found() {
    let query = Query::new_with_defaults("id", Format::Cram).with_reference_name("chr9");
    let result = resolve_cram_query(&query, &cram_refs(), &test_crai(), 600, 5000);
    assert!(matches!(result, Err(HtsGetError::NotFound(_))));
}

#[test]
fn cram_selects_overlapping_slice() {
    // Only the first slice overlaps [1, 1500); its container runs to the
    // next container offset. The header and end-of-file containers are
    // included.
    let query = Query::new_with_defaults("id", Format::Cram)
        .with_reference_name("chr1")
        .with_start(1)
        .with_end(1500);
    let positions = resolve_cram_query(&query, &cram_refs(), &test_crai(), 600, 5000).unwrap();
    assert_eq!(
        positions,
        vec![
            BytesPosition::new(None, Some(1200), None),
            BytesPosition::new(Some(4962), Some(5000), None),
        ]
    );
}

#[test]
fn cram_beyond_slices_header_and_eof_only() {
    let query = Query::new_with_defaults("id", Format::Cram)
        .with_reference_name("chr1")
        .with_start(5000)
        .with_end(9000);
    let positions = resolve_cram_query(&query, &cram_refs(), &test_crai(), 600, 5000).unwrap();
    assert_eq!(
        positions,
        vec![
            BytesPosition::new(None, Some(600), None),
            BytesPosition::new(Some(4962), Some(5000), None),
        ]
    );
}

#[test]
fn cram_ticket_header_class_single_url() {
    let query = Query::new_with_defaults("id", Format::Cram).with_class(Class::Header);
    let response = resolve_ticket(
        &query,
        &cram_refs(),
        &IndexData::Crai(test_crai()),
        600,
        5000,
        "file://id.cram",
    )
    .unwrap();
    assert_eq!(response.format, Format::Cram);
    assert_eq!(response.urls.len(), 1);
    assert_eq!(response.urls[0].class, Some(Class::Header));
}

#[test]
fn ticket_rejects_mismatched_index() {
    let query = Query::new_with_defaults("id", Format::Bam);
    let result = resolve_ticket(
        &query,
        &cram_refs(),
        &IndexData::Crai(test_crai()),
        600,
        5000,
        "file://id.bam",
    );
    assert!(matches!(result, Err(HtsGetError::InvalidInput(_))));
}
