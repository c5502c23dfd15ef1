//! Tests of the core data model: intervals, errors, formats, headers,
//! urls, responses and query builders.

use htsget::types::{
    Class, Fields, Format, Headers, HtsGetError, Interval, KeyType, NoTags, Query, Response,
    TaggedTypeAll, Tags, Url,
};

fn header_value<'a>(headers: &'a Headers, key: &str) -> Option<&'a String> {
    headers
        .as_ref_inner()
        .iter()
        .find(|entry| entry.0 == key)
        .map(|entry| &entry.1)
}

#[test]
fn interval_contains() {
    let interval = Interval {
        start: Some(0),
        end: Some(10),
    };
    assert!(interval.contains(9));
}

#[test]
fn interval_not_contains() {
    let interval = Interval {
        start: Some(0),
        end: Some(10),
    };
    assert!(!interval.contains(10));
}

#[test]
fn interval_contains_start_not_present() {
    let interval = Interval {
        start: None,
        end: Some(10),
    };
    assert!(interval.contains(9));
}

#[test]
fn interval_not_contains_start_not_present() {
    let interval = Interval {
        start: None,
        end: Some(10),
    };
    assert!(!interval.contains(10));
}

#[test]
fn interval_contains_end_not_present() {
    let interval = Interval {
        start: Some(1),
        end: None,
    };
    assert!(interval.contains(9));
}

#[test]
fn interval_not_contains_end_not_present() {
    let interval = Interval {
        start: Some(1),
        end: None,
    };
    assert!(!interval.contains(0));
}

#[test]
fn interval_contains_both_not_present() {
    let interval = Interval {
        start: None,
        end: None,
    };
    assert!(interval.contains(0));
}

#[test]
fn htsget_error_not_found() {
    let result = HtsGetError::not_found("error");
    assert!(matches!(result, HtsGetError::NotFound(message) if message == "error"));
}

#[test]
fn htsget_error_unsupported_format() {
    let result = HtsGetError::unsupported_format("error");
    assert!(matches!(result, HtsGetError::UnsupportedFormat(message) if message == "error"));
}

#[test]
fn htsget_error_invalid_input() {
    let result = HtsGetError::invalid_input("error");
    assert!(matches!(result, HtsGetError::InvalidInput(message) if message == "error"));
}

#[test]
fn htsget_error_invalid_range() {
    let result = HtsGetError::invalid_range("error");
    assert!(matches!(result, HtsGetError::InvalidRange(message) if message == "error"));
}

#[test]
fn htsget_error_io_error() {
    let result = HtsGetError::io_error("error");
    assert!(matches!(result, HtsGetError::IoError(message) if message == "error"));
}

#[test]
fn htsget_error_parse_error() {
    let result = HtsGetError::parse_error("error");
    assert!(matches!(result, HtsGetError::ParseError(message) if message == "error"));
}

#[test]
fn htsget_error_internal_error() {
    let result = HtsGetError::internal_error("error");
    assert!(matches!(result, HtsGetError::InternalError(message) if message == "error"));
}

#[test]
fn query_new() {
    let result = Query::new_with_defaults("NA12878", Format::Bam);
    assert_eq!(result.id(), "NA12878");
}

#[test]
fn query_with_format() {
    let result = Query::new_with_defaults("NA12878", Format::Bam);
    assert_eq!(result.format(), Format::Bam);
}

#[test]
fn query_with_class() {
    let result = Query::new_with_defaults("NA12878", Format::Bam).with_class(Class::Header);
    assert_eq!(result.class(), Class::Header);
}

#[test]
fn query_with_reference_name() {
    let result = Query::new_with_defaults("NA12878", Format::Bam).with_reference_name("chr1");
    assert_eq!(result.reference_name().map(|name| name.as_str()), Some("chr1"));
}

#[test]
fn query_with_start() {
    let result = Query::new_with_defaults("NA12878", Format::Bam).with_start(0);
    assert_eq!(result.interval().start(), Some(0));
}

#[test]
fn query_with_end() {
    let result = Query::new_with_defaults("NA12878", Format::Bam).with_end(0);
    assert_eq!(result.interval().end(), Some(0));
}

#[test]
fn query_with_fields() {
    let result = Query::new_with_defaults("NA12878", Format::Bam)
        .with_fields(Fields::List(vec!["QNAME".to_string(), "FLAG".to_string()]));
    assert_eq!(
        result.fields(),
        &Fields::List(vec!["QNAME".to_string(), "FLAG".to_string()])
    );
}

#[test]
fn query_with_tags() {
    let result =
        Query::new_with_defaults("NA12878", Format::Bam).with_tags(Tags::Tagged(TaggedTypeAll::All));
    assert_eq!(result.tags(), &Tags::Tagged(TaggedTypeAll::All));
}

#[test]
fn query_with_no_tags() {
    let result = Query::new_with_defaults("NA12878", Format::Bam)
        .with_no_tags(vec!["RG".to_string(), "OQ".to_string()]);
    assert_eq!(
        result.no_tags(),
        &NoTags(Some(vec!["RG".to_string(), "OQ".to_string()]))
    );
}

#[test]
fn format_from_bam() {
    let result = Format::Bam.to_string();
    assert_eq!(result, "BAM");
}

#[test]
fn format_from_cram() {
    let result = Format::Cram.to_string();
    assert_eq!(result, "CRAM");
}

#[test]
fn format_from_vcf() {
    let result = Format::Vcf.to_string();
    assert_eq!(result, "VCF");
}

#[test]
fn format_from_bcf() {
    let result = Format::Bcf.to_string();
    assert_eq!(result, "BCF");
}

#[test]
fn headers_with_header() {
    let header = Headers::new(Vec::new()).with_header("Range", "bytes=0-1023");
    let result = header_value(&header, "Range");
    assert_eq!(result, Some(&"bytes=0-1023".to_string()));
}

#[test]
fn headers_is_empty() {
    assert!(Headers::new(Vec::new()).is_empty());
}

#[test]
fn headers_insert() {
    let mut header = Headers::new(Vec::new());
    header.insert("Range", "bytes=0-1023");
    let result = header_value(&header, "Range");
    assert_eq!(result, Some(&"bytes=0-1023".to_string()));
}

#[test]
fn headers_extend() {
    let mut headers = Headers::new(Vec::new());
    headers.insert("Range", "bytes=0-1023");

    let mut extend_with = Headers::new(Vec::new());
    extend_with.insert("header", "value");

    headers.extend(extend_with);

    let result = header_value(&headers, "Range");
    assert_eq!(result, Some(&"bytes=0-1023".to_string()));

    let result = header_value(&headers, "header");
    assert_eq!(result, Some(&"value".to_string()));
}

#[test]
fn headers_multiple_values() {
    let headers = Headers::new(Vec::new())
        .with_header("Range", "bytes=0-1023")
        .with_header("Range", "bytes=1024-2047");
    let result = header_value(&headers, "Range");

    assert_eq!(result, Some(&"bytes=0-1023, bytes=1024-2047".to_string()));
}

#[test]
fn url_with_headers() {
    let result = Url::new("data:application/vnd.ga4gh.bam;base64,QkFNAQ==")
        .with_headers(Headers::new(Vec::new()));
    assert_eq!(result.headers, None);
}

#[test]
fn url_add_headers() {
    let mut headers = Headers::new(Vec::new());
    headers.insert("Range", "bytes=0-1023");

    let mut extend_with = Headers::new(Vec::new());
    extend_with.insert("header", "value");

    let result = Url::new("data:application/vnd.ga4gh.bam;base64,QkFNAQ==")
        .with_headers(headers)
        .add_headers(extend_with);

    let expected_headers = Headers::new(Vec::new())
        .with_header("Range", "bytes=0-1023")
        .with_header("header", "value");

    assert_eq!(result.headers, Some(expected_headers));
}

#[test]
fn url_with_class() {
    let result = Url::new("data:application/vnd.ga4gh.bam;base64,QkFNAQ==").with_class(Class::Header);
    assert_eq!(result.class, Some(Class::Header));
}

#[test]
fn url_set_class() {
    let result =
        Url::new("data:application/vnd.ga4gh.bam;base64,QkFNAQ==").set_class(Some(Class::Header));
    assert_eq!(result.class, Some(Class::Header));
}

#[test]
fn url_new() {
    let result = Url::new("data:application/vnd.ga4gh.bam;base64,QkFNAQ==");
    assert_eq!(result.url, "data:application/vnd.ga4gh.bam;base64,QkFNAQ==");
    assert_eq!(result.headers, None);
    assert_eq!(result.class, None);
}

#[test]
fn response_new() {
    let result = Response::new(
        Format::Bam,
        vec![Url::new("data:application/vnd.ga4gh.bam;base64,QkFNAQ==")],
    );
    assert_eq!(result.format, Format::Bam);
    assert_eq!(
        result.urls,
        vec![Url::new("data:application/vnd.ga4gh.bam;base64,QkFNAQ==")]
    );
}

#[test]
fn key_type_from_ending_index() {
    assert_eq!(KeyType::from_ending("key.bam.bai"), KeyType::Index);
    assert_eq!(KeyType::from_ending("key.vcf.gz.tbi"), KeyType::Index);
    assert_eq!(KeyType::from_ending("key.cram.crai"), KeyType::Index);
    assert_eq!(KeyType::from_ending("key.bcf.csi"), KeyType::Index);
    assert_eq!(KeyType::from_ending("key.bcf.gzi"), KeyType::Index);
}

#[test]
fn key_type_from_ending_file() {
    assert_eq!(KeyType::from_ending("key.bam"), KeyType::File);
    assert_eq!(KeyType::from_ending("key.vcf.gz"), KeyType::File);
}

#[test]
fn format_file_endings() {
    assert_eq!(Format::Bam.file_ending(), ".bam");
    assert_eq!(Format::Cram.file_ending(), ".cram");
    assert_eq!(Format::Vcf.file_ending(), ".vcf.gz");
    assert_eq!(Format::Bcf.file_ending(), ".bcf");
    assert_eq!(Format::Bam.index_file_ending(), ".bam.bai");
    assert_eq!(Format::Bcf.index_file_ending(), ".bcf.csi");
}

#[test]
fn format_fmt_index() {
    assert_eq!(Format::Bam.fmt_index("id"), "id.bam.bai");
}

#[test]
fn format_fmt_gzi() {
    assert_eq!(Format::Bam.fmt_gzi("id").unwrap(), "id.bam.gzi");
    assert!(Format::Cram.fmt_gzi("id").is_err());
}

#[test]
fn format_fmt_file_crypt4gh() {
    let query = Query::new_with_defaults("id", Format::Bam);
    assert_eq!(Format::Bam.fmt_file(&query), "id.bam");
}
