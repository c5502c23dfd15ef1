//! Tests of the byte-position algebra, the binning arithmetic, query
//! resolution over a synthetic index, response assembly and routing.

use htsget::from_storage::{ReferenceMeta, resolve_bgzf_query, resolve_response};
use htsget::index::{Bin, BinningIndex, Chunk, ReferenceSequenceIndex, bin_range};
use htsget::response::{bgzf_eof_data_url, positions_to_response};
use htsget::router::{Endpoint, HtsgetMethod, Route, RouteType, Router};
use htsget::search::{
    get_byte_ranges_for_reference_sequence_bgzf, possible_positions, unmapped_byte_ranges,
};
use htsget::decimal::u64_to_string;
use htsget::service_info::ServiceInfo;
use htsget::storage::{BytesPosition, BytesRange};
use htsget::types::{Class, Format, HtsGetError, Interval, Query};
use std::sync::Arc;

fn vp(compressed: u64, uncompressed: u64) -> u64 {
    compressed * 65536 + uncompressed
}

fn test_index() -> BinningIndex {
    // One reference sequence with one record chunk in the lowest-level bin
    // covering positions [0, 16384) and a linear index entry.
    BinningIndex {
        min_shift: 14,
        depth: 5,
        ref_seqs: vec![ReferenceSequenceIndex {
            bins: vec![Bin {
                id: 4681,
                chunks: vec![Chunk {
                    start: vp(100, 0),
                    end: vp(200, 10),
                }],
            }],
            intervals: vec![vp(100, 0)],
            metadata: None,
        }],
    }
}

fn test_refs() -> Vec<ReferenceMeta> {
    vec![ReferenceMeta {
        name: "chr1".to_string(),
        len: Some(1000000),
    }]
}

#[test]
fn bin_range_levels() {
    // Bin 0 covers the whole addressable range of a BAI scheme.
    assert_eq!(bin_range(0, 14, 5), Some((0, 1 << 29)));
    // The first bin of the deepest level covers one window.
    assert_eq!(bin_range(4681, 14, 5), Some((0, 16384)));
    assert_eq!(bin_range(4682, 14, 5), Some((16384, 32768)));
    // The metadata pseudo-bin is no bin of the scheme.
    assert_eq!(bin_range(37450, 14, 5), None);
}

#[test]
fn merge_all_merges_adjacent() {
    let positions = vec![
        BytesPosition::new(Some(0), Some(100), None),
        BytesPosition::new(Some(100), Some(200), None),
        BytesPosition::new(Some(300), Some(400), None),
    ];
    let merged = BytesPosition::merge_all(positions);
    assert_eq!(
        merged,
        vec![
            BytesPosition::new(Some(0), Some(200), None),
            BytesPosition::new(Some(300), Some(400), None),
        ]
    );
}

#[test]
fn merge_all_sorts() {
    let positions = vec![
        BytesPosition::new(Some(300), Some(400), None),
        BytesPosition::new(Some(0), Some(150), None),
        BytesPosition::new(Some(100), Some(200), None),
    ];
    let merged = BytesPosition::merge_all(positions);
    assert_eq!(
        merged,
        vec![
            BytesPosition::new(Some(0), Some(200), None),
            BytesPosition::new(Some(300), Some(400), None),
        ]
    );
}

#[test]
fn bytes_range_to_string() {
    let range = BytesRange::from_position(&BytesPosition::new(Some(7), Some(9), None));
    assert_eq!(range.to_string(), "bytes=7-8");
    let range = BytesRange::from_position(&BytesPosition::new(Some(7), None, None));
    assert_eq!(range.to_string(), "bytes=7-");
    let range = BytesRange::from_position(&BytesPosition::new(None, Some(9), None));
    assert_eq!(range.to_string(), "bytes=0-8");
}

#[test]
fn decimal_formatting() {
    assert_eq!(u64_to_string(0), "0");
    assert_eq!(u64_to_string(42), "42");
    assert_eq!(u64_to_string(2596770), "2596770");
    assert_eq!(u64_to_string(u64::MAX), "18446744073709551615");
}

#[test]
fn engine_rejects_zero_start() {
    // A start of zero cannot be converted to a one-based position.
    let index = test_index();
    let positions = possible_positions(&index);
    let result = get_byte_ranges_for_reference_sequence_bgzf(
        &index.ref_seqs[0],
        14,
        5,
        Interval {
            start: Some(0),
            end: Some(153),
        },
        1000000,
        &positions,
    );
    assert_eq!(
        result,
        Err(HtsGetError::InvalidRange("0-153".to_string()))
    );
}

#[test]
fn engine_empty_interval_selects_nothing() {
    let index = test_index();
    let positions = possible_positions(&index);
    let result = get_byte_ranges_for_reference_sequence_bgzf(
        &index.ref_seqs[0],
        14,
        5,
        Interval {
            start: Some(5),
            end: Some(5),
        },
        1000000,
        &positions,
    );
    assert_eq!(result, Ok(Vec::new()));
}

#[test]
fn engine_beyond_length_is_not_an_error() {
    let index = test_index();
    let positions = possible_positions(&index);
    let result = get_byte_ranges_for_reference_sequence_bgzf(
        &index.ref_seqs[0],
        14,
        5,
        Interval {
            start: Some(2000000),
            end: Some(3000000),
        },
        1000000,
        &positions,
    );
    assert_eq!(result, Ok(Vec::new()));
}

#[test]
fn engine_selects_overlapping_chunk() {
    let index = test_index();
    let positions = possible_positions(&index);
    let result = get_byte_ranges_for_reference_sequence_bgzf(
        &index.ref_seqs[0],
        14,
        5,
        Interval {
            start: Some(1),
            end: Some(100),
        },
        1000000,
        &positions,
    )
    .unwrap();
    // The chunk [100:0, 200:10] becomes the bytes of its blocks: the end
    // is rounded up to the next boundary known to the index, and none is
    // greater than 200, so one extra block is assumed.
    assert_eq!(
        result,
        vec![BytesPosition::new(Some(100), Some(200 + 65536), None)]
    );
}

#[test]
fn possible_positions_sorted_unique() {
    let index = test_index();
    let positions = possible_positions(&index);
    assert_eq!(positions, vec![100, 200]);
}

fn test_index_late_interval() -> BinningIndex {
    let mut index = test_index();
    index.ref_seqs[0].intervals = vec![vp(100000, 0)];
    index
}

#[test]
fn unmapped_uses_last_interval() {
    let index = test_index_late_interval();
    let ranges = unmapped_byte_ranges(&index, 4668, 2596771);
    assert_eq!(
        ranges,
        vec![BytesPosition::new(Some(100000), Some(2596771), None)]
    );
}

#[test]
fn unmapped_falls_back_to_header_end() {
    let mut index = test_index();
    index.ref_seqs[0].intervals = Vec::new();
    let ranges = unmapped_byte_ranges(&index, 4668, 2596771);
    assert_eq!(
        ranges,
        vec![BytesPosition::new(Some(4668), Some(2596771), None)]
    );
}

#[test]
fn resolve_header_class_only_header() {
    let query = Query::new_with_defaults("id", Format::Bam).with_class(Class::Header);
    let result = resolve_bgzf_query(&query, &test_refs(), &test_index(), 4668, 2596771).unwrap();
    assert_eq!(result, vec![BytesPosition::new(None, Some(4668), None)]);
}

#[test]
fn resolve_all_reads_whole_file() {
    let query = Query::new_with_defaults("id", Format::Bam);
    let result = resolve_bgzf_query(&query, &test_refs(), &test_index(), 4668, 2596771).unwrap();
    assert_eq!(result, vec![BytesPosition::new(None, Some(2596771), None)]);
}

#[test]
fn resolve_unknown_reference_not_found() {
    let query = Query::new_with_defaults("id", Format::Bam).with_reference_name("chr2");
    let result = resolve_bgzf_query(&query, &test_refs(), &test_index(), 4668, 2596771);
    assert!(matches!(result, Err(HtsGetError::NotFound(_))));
}

#[test]
fn resolve_unmapped_reads() {
    let query = Query::new_with_defaults("id", Format::Bam).with_reference_name("*");
    let result = resolve_bgzf_query(
        &query,
        &test_refs(),
        &test_index_late_interval(),
        4668,
        2596771,
    )
    .unwrap();
    assert_eq!(
        result,
        vec![
            BytesPosition::new(None, Some(4668), None),
            BytesPosition::new(Some(100000), Some(2596771), None),
        ]
    );
}

#[test]
fn resolve_reference_merges_header() {
    // The chunk starts within the header's first blocks, so the merged
    // response is one position from the file start.
    let query = Query::new_with_defaults("id", Format::Bam)
        .with_reference_name("chr1")
        .with_start(1)
        .with_end(100);
    let result = resolve_bgzf_query(&query, &test_refs(), &test_index(), 4668, 2596771).unwrap();
    assert_eq!(
        result,
        vec![BytesPosition::new(None, Some(200 + 65536), None)]
    );
}

#[test]
fn response_appends_eof_url() {
    let positions = vec![BytesPosition::new(None, Some(4668), None)];
    let response = positions_to_response(Format::Bam, Class::Body, &positions, "http://localhost/id.bam");
    assert_eq!(response.format, Format::Bam);
    assert_eq!(response.urls.len(), 2);
    assert_eq!(response.urls[0].url, "http://localhost/id.bam");
    let last = response.urls.last().unwrap();
    assert_eq!(last.url, bgzf_eof_data_url());
    assert_eq!(last.class, Some(Class::Body));
    assert_eq!(last.headers, None);
}

#[test]
fn response_header_class_two_urls() {
    let query = Query::new_with_defaults("id", Format::Bam).with_class(Class::Header);
    let response = resolve_response(
        &query,
        &test_refs(),
        &test_index(),
        4668,
        2596771,
        "http://localhost/id.bam",
    )
    .unwrap();
    assert_eq!(response.urls.len(), 2);
    assert_eq!(response.urls[0].class, Some(Class::Header));
    assert_eq!(response.urls[1].url, bgzf_eof_data_url());
    assert_eq!(response.urls[1].class, Some(Class::Body));
}

#[test]
fn eof_data_url_value() {
    assert_eq!(
        bgzf_eof_data_url(),
        "data:;base64,H4sIBAAAAAAA/wYAQkMCABsAAwAAAAAAAAAAAA=="
    );
}

fn test_router_service_info() -> ServiceInfo {
    ServiceInfo::new(Vec::new()).unwrap()
}

#[test]
fn get_route_invalid_method() {
    let info = test_router_service_info();
    let router = Router::new(Arc::new(()), &info);
    assert!(router.get_route("DELETE", "/reads/id").is_none());
}

#[test]
fn get_route_no_path() {
    let info = test_router_service_info();
    let router = Router::new(Arc::new(()), &info);
    assert!(router.get_route("GET", "").is_none());
}

#[test]
fn get_route_no_endpoint() {
    let info = test_router_service_info();
    let router = Router::new(Arc::new(()), &info);
    assert!(router.get_route("GET", "/path/").is_none());
}

#[test]
fn get_route_reads_no_id() {
    let info = test_router_service_info();
    let router = Router::new(Arc::new(()), &info);
    assert!(router.get_route("GET", "/reads/").is_none());
}

#[test]
fn get_route_reads_service_info() {
    let info = test_router_service_info();
    let router = Router::new(Arc::new(()), &info);
    let route = router.get_route("GET", "/reads/service-info");
    assert_eq!(
        route,
        Some(Route::new(
            HtsgetMethod::Get,
            Endpoint::Reads,
            RouteType::ServiceInfo
        ))
    );
}

#[test]
fn get_route_variants_id() {
    let info = test_router_service_info();
    let router = Router::new(Arc::new(()), &info);
    let route = router.get_route("GET", "/variants/id");
    assert_eq!(
        route,
        Some(Route::new(
            HtsgetMethod::Get,
            Endpoint::Variants,
            RouteType::Id("id".to_string())
        ))
    );
}

#[test]
fn resolve_empty_interval_header_only() {
    let query = Query::new_with_defaults("id", Format::Bam)
        .with_reference_name("chr1")
        .with_start(5)
        .with_end(5);
    let result = resolve_bgzf_query(&query, &test_refs(), &test_index(), 4668, 2596771).unwrap();
    assert_eq!(result, vec![BytesPosition::new(None, Some(4668), None)]);
}

#[test]
fn interval_into_one_based() {
    let interval = Interval {
        start: Some(0),
        end: Some(153),
    };
    assert_eq!(interval.into_one_based(), Ok((Some(1), Some(153))));
    let interval = Interval {
        start: Some(u32::MAX),
        end: None,
    };
    assert!(matches!(
        interval.into_one_based(),
        Err(HtsGetError::InvalidInput(_))
    ));
    let interval = Interval {
        start: None,
        end: Some(0),
    };
    assert!(matches!(
        interval.into_one_based(),
        Err(HtsGetError::InvalidInput(_))
    ));
}

#[test]
fn resolve_carries_invalid_range_message() {
    let query = Query::new_with_defaults("id", Format::Bam)
        .with_reference_name("chr1")
        .with_start(0)
        .with_end(153);
    let result = resolve_bgzf_query(&query, &test_refs(), &test_index(), 4668, 2596771);
    assert_eq!(result, Err(HtsGetError::InvalidRange("0-153".to_string())));
}

#[test]
fn resolve_carries_not_found_message() {
    let query = Query::new_with_defaults("id", Format::Bam).with_reference_name("chr2");
    let result = resolve_bgzf_query(&query, &test_refs(), &test_index(), 4668, 2596771);
    assert_eq!(
        result,
        Err(HtsGetError::NotFound(
            "Reference name not found in the header: chr2".to_string()
        ))
    );
}
