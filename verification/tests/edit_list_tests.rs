//! Tests of the Crypt4GH edit-list layer: clamping, edit-list
//! construction, packet serialization through the real crypt4gh crate,
//! header rewriting and the ciphertext range transform.

use htsget::edit_list::{
    EditHeader, EditListError, Header, ScannedHeader, UnencryptedPosition, base64_data_url,
    create_edit_list, make_edit_list_packet, parse_edit_list_packet, resolve_crypt4gh_response,
    to_encrypted, unencrypted_clamp, unencrypted_clamp_next,
};
use htsget::from_storage::ReferenceMeta;
use htsget::index::{Bin, BinningIndex, Chunk, ReferenceSequenceIndex};
use htsget::storage::BytesPosition;
use htsget::types::{Class, Format, Query};

fn test_positions() -> Vec<UnencryptedPosition> {
    vec![
        UnencryptedPosition::new(0, 7853),
        UnencryptedPosition::new(145110, 453039),
        UnencryptedPosition::new(5485074, 5485112),
    ]
}

fn expected_edit_list() -> Vec<u64> {
    vec![0, 7853, 71721, 307929, 51299, 38]
}

fn test_scanned() -> ScannedHeader {
    ScannedHeader {
        magic: b"crypt4gh".to_vec(),
        version: 1,
        packets_count: 1,
        packets: vec![vec![4, 0, 0, 0, 0xAA, 0xBB, 0xCC, 0xDD]],
        edit_list: None,
    }
}

fn test_keys() -> (Vec<u8>, Vec<u8>) {
    // Any 32 bytes act as an x25519 scalar and point.
    (vec![7u8; 32], vec![9u8; 32])
}

#[test]
fn test_create_edit_list() {
    let (privkey, pubkey) = test_keys();
    let edit_list = EditHeader::new(None, test_positions(), privkey, pubkey, 5485112)
        .create_edit_list();
    assert_eq!(edit_list, expected_edit_list());
}

#[test]
fn create_edit_list_values() {
    let edits = create_edit_list(&test_positions(), 5485112);
    assert_eq!(edits, expected_edit_list());
}

#[test]
fn clamp_down_values() {
    assert_eq!(unencrypted_clamp(0), 0);
    assert_eq!(unencrypted_clamp(7853), 0);
    assert_eq!(unencrypted_clamp(145110), 131072);
    assert_eq!(unencrypted_clamp(5485074), 5439488);
}

#[test]
fn clamp_up_values() {
    assert_eq!(unencrypted_clamp_next(7853, 5485112), 65536);
    assert_eq!(unencrypted_clamp_next(453039, 5485112), 458752);
    assert_eq!(unencrypted_clamp_next(5485112, 5485112), 5485112);
    assert_eq!(unencrypted_clamp_next(65536, 5485112), 65536);
}

#[test]
fn edit_list_packet_round_trip() {
    // The packet is produced by the crypt4gh crate itself and read back
    // by the verified parser.
    let edits = create_edit_list(&test_positions(), 5485112);
    let packet = make_edit_list_packet(&edits);
    assert_eq!(packet.len(), 8 + 8 * edits.len());
    assert_eq!(&packet[0..4], &[1, 0, 0, 0]);
    let parsed = parse_edit_list_packet(&packet).unwrap();
    assert_eq!(parsed, edits);
}

#[test]
fn parse_edit_list_rejects_bad_tag() {
    let mut packet = make_edit_list_packet(&vec![5]);
    packet[0] = 0;
    assert_eq!(parse_edit_list_packet(&packet), None);
}

#[test]
fn parse_edit_list_rejects_bad_length() {
    let mut packet = make_edit_list_packet(&vec![5]);
    packet.pop();
    assert_eq!(parse_edit_list_packet(&packet), None);
}

#[test]
fn edit_list_rejects_existing_edit_list() {
    let (privkey, pubkey) = test_keys();
    let mut scanned = test_scanned();
    scanned.edit_list = Some(vec![0, 100]);
    let result = EditHeader::new(Some(scanned), test_positions(), privkey, pubkey, 5485112)
        .edit_list();
    assert!(matches!(result, Err(EditListError::Crypt4GHError(_))));
}

#[test]
fn edit_list_without_header_yields_nothing() {
    let (privkey, pubkey) = test_keys();
    let result = EditHeader::new(None, test_positions(), privkey, pubkey, 5485112)
        .edit_list()
        .unwrap();
    assert_eq!(result, None);
}

#[test]
fn edit_list_builds_rewritten_header() {
    let (privkey, pubkey) = test_keys();
    let header = EditHeader::new(Some(test_scanned()), test_positions(), privkey, pubkey, 5485112)
        .edit_list()
        .unwrap()
        .unwrap();
    let (header_info, original_header, edit_list_packet) = header.into_inner();

    // The header info repeats the magic and version and counts one more
    // packet.
    let mut expected_info = b"crypt4gh".to_vec();
    expected_info.extend_from_slice(&1u32.to_le_bytes());
    expected_info.extend_from_slice(&2u32.to_le_bytes());
    assert_eq!(header_info, expected_info);

    // The original packets are kept verbatim.
    assert_eq!(original_header, vec![4, 0, 0, 0, 0xAA, 0xBB, 0xCC, 0xDD]);

    // The new packet is framed by its length (including the length field)
    // and holds the encrypted edit-list packet: 4 bytes of method, 32 of
    // writer key, 12 of nonce, the 56-byte packet body and 16 of tag.
    let body_len = 8 + 8 * expected_edit_list().len();
    assert_eq!(edit_list_packet.len(), 4 + body_len + 64);
    let framed = u32::from_le_bytes(edit_list_packet[0..4].try_into().unwrap());
    assert_eq!(framed as usize, edit_list_packet.len());
}

#[test]
fn rewritten_header_as_slice_concatenates() {
    let header = Header::new(vec![1, 2], vec![3], vec![4, 5]);
    assert_eq!(header.as_slice(), vec![1, 2, 3, 4, 5]);
}

#[test]
fn to_encrypted_block_aligned() {
    let p = UnencryptedPosition::new(0, 65536);
    let r = to_encrypted(&p, 124, 5485112);
    assert_eq!(r, BytesPosition::new(Some(124), Some(124 + 65564), None));
}

#[test]
fn to_encrypted_partial_tail() {
    let p = UnencryptedPosition::new(0, 100);
    let r = to_encrypted(&p, 124, 100);
    assert_eq!(r, BytesPosition::new(Some(124), Some(124 + 100 + 28), None));
}

#[test]
fn data_url_of_bgzf_eof() {
    let eof: Vec<u8> = vec![
        0x1f, 0x8b, 0x08, 0x04, 0x00, 0x00, 0x00, 0x00, 0x00, 0xff, 0x06, 0x00, 0x42, 0x43,
        0x02, 0x00, 0x1b, 0x00, 0x03, 0x00, 0x00, 0x00, 0x00, 0x00, 0x00, 0x00, 0x00, 0x00,
    ];
    assert_eq!(
        base64_data_url(&eof),
        "data:;base64,H4sIBAAAAAAA/wYAQkMCABsAAwAAAAAAAAAAAA=="
    );
}

#[test]
fn crypt4gh_end_to_end_response() {
    let (privkey, pubkey) = test_keys();
    let rewritten = EditHeader::new(Some(test_scanned()), test_positions(), privkey, pubkey, 5485112)
        .edit_list()
        .unwrap()
        .unwrap();

    let index = BinningIndex {
        min_shift: 14,
        depth: 5,
        ref_seqs: vec![ReferenceSequenceIndex {
            bins: vec![Bin {
                id: 4681,
                chunks: vec![Chunk {
                    start: 100 * 65536,
                    end: 200 * 65536 + 10,
                }],
            }],
            intervals: vec![100 * 65536],
            metadata: None,
        }],
    };
    let refs = vec![ReferenceMeta {
        name: "chr1".to_string(),
        len: Some(1000000),
    }];
    let query = Query::new_with_defaults("id", Format::Bam)
        .with_reference_name("chr1")
        .with_start(1)
        .with_end(100);

    let response = resolve_crypt4gh_response(
        &query,
        &refs,
        &index,
        4668,
        5485112,
        &rewritten,
        124,
        "file://id.bam.c4gh",
    )
    .unwrap();

    assert_eq!(response.format, Format::Bam);
    assert!(response.urls[0].url.starts_with("data:;base64,"));
    assert_eq!(response.urls[0].class, Some(Class::Header));
    assert!(response.urls.len() > 1);
}
