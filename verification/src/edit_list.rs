//! The Crypt4GH edit-list layer: building an edit list from plaintext byte
//! positions, serializing it as a data-edit-list header packet, encrypting
//! it for the recipient, and assembling the rewritten header.

use vstd::prelude::*;
use vstd::bytes::{
    spec_u32_to_le_bytes, spec_u32_from_le_bytes, spec_u64_to_le_bytes, spec_u64_from_le_bytes,
    u32_from_le_bytes, u32_to_le_bytes, u64_from_le_bytes,
    lemma_auto_spec_u32_to_from_le_bytes, lemma_auto_spec_u64_to_from_le_bytes,
};
use vstd::slice::slice_subrange;

verus! {

/// The plaintext block size of a Crypt4GH stream.
pub const C4GH_BLOCK_SIZE: u64 = 65536;

/// The wire size of one encrypted Crypt4GH block: the plaintext block plus
/// a 12-byte nonce and a 16-byte authentication tag.
pub const C4GH_WIRE_BLOCK_SIZE: u64 = 65564;

/// An unencrypted byte range: inclusive start, exclusive end.
#[derive(Clone, Copy, Debug, PartialEq, Eq, Structural)]
pub struct UnencryptedPosition {
    pub start: u64,
    pub end: u64,
}

impl UnencryptedPosition {
    /// Create a position.
    pub fn new(start: u64, end: u64) -> (r: Self)
        ensures
            r.start() == start,
            r.end() == end,
    {
        Self { start, end }
    }

    /// The inclusive start.
    #[verifier::when_used_as_spec(spec_start)]
    pub fn start(&self) -> (r: u64)
        ensures
            r == self.spec_start(),
    {
        self.start
    }

    /// The exclusive end.
    #[verifier::when_used_as_spec(spec_end)]
    pub fn end(&self) -> (r: u64)
        ensures
            r == self.spec_end(),
    {
        self.end
    }

    pub open spec fn spec_start(&self) -> u64 {
        self.start
    }

    pub open spec fn spec_end(&self) -> u64 {
        self.end
    }
}

/// The greatest multiple of the block size at or below `x`.
pub open spec fn spec_clamp_down(x: u64) -> int {
    (x as int / 65536) * 65536
}

/// The least multiple of the block size at or above `x`, capped at the
/// stream length.
pub open spec fn spec_clamp_up(x: u64, stream_length: u64) -> int {
    if x % 65536 == 0 {
        x as int
    } else if (x as int / 65536) * 65536 + 65536 <= stream_length {
        (x as int / 65536) * 65536 + 65536
    } else {
        stream_length as int
    }
}

/// Clamp `x` down to its block boundary.
pub fn unencrypted_clamp(x: u64) -> (r: u64)
    ensures
        r == spec_clamp_down(x),
{
    (x / C4GH_BLOCK_SIZE) * C4GH_BLOCK_SIZE
}

/// Clamp `x` up to the next block boundary, capped at the stream length.
pub fn unencrypted_clamp_next(x: u64, stream_length: u64) -> (r: u64)
    requires
        x <= stream_length,
    ensures
        r == spec_clamp_up(x, stream_length),
{
    if x % C4GH_BLOCK_SIZE == 0 {
        x
    } else {
        let down = (x / C4GH_BLOCK_SIZE) * C4GH_BLOCK_SIZE;
        assert(down <= x) by {
            assert((x as int / 65536) * 65536 <= x) by (nonlinear_arith);
        }
        if stream_length - down >= C4GH_BLOCK_SIZE {
            down + C4GH_BLOCK_SIZE
        } else {
            stream_length
        }
    }
}

/// The positions all lie within the stream and are not inverted.
pub open spec fn spec_positions_wf(ps: Seq<UnencryptedPosition>, stream_length: u64) -> bool {
    forall|i: int|
        0 <= i < ps.len() ==> (#[trigger] ps[i]).start() <= ps[i].end() && ps[i].end()
            <= stream_length
}

/// The edit list of a list of positions: alternating `(discard, keep)`
/// pairs, where each discard counts from the block boundary below the
/// range start, corrected by the bytes kept past the previous range's end
/// up to its block boundary.
pub open spec fn spec_edit_list_from(
    ps: Seq<UnencryptedPosition>,
    stream_length: u64,
    prev_trailing: int,
) -> Seq<u64>
    decreases ps.len(),
{
    if ps.len() == 0 {
        Seq::<u64>::empty()
    } else {
        let p = ps[0];
        let discard = p.start() - spec_clamp_down(p.start()) + prev_trailing;
        let keep = p.end() - p.start();
        seq![discard as u64, keep as u64] + spec_edit_list_from(
            ps.drop_first(),
            stream_length,
            spec_clamp_up(p.end(), stream_length) - p.end(),
        )
    }
}

/// The edit list of the positions over a stream of the given length.
pub open spec fn spec_edit_list(ps: Seq<UnencryptedPosition>, stream_length: u64) -> Seq<u64> {
    spec_edit_list_from(ps, stream_length, 0)
}

/// Build the edit list from unencrypted positions: one `(discard, keep)`
/// pair per range; the final trailing correction is dropped.
pub fn create_edit_list(
    positions: &Vec<UnencryptedPosition>,
    stream_length: u64,
) -> (r: Vec<u64>)
    requires
        spec_positions_wf(positions@, stream_length),
    ensures
        r@ == spec_edit_list(positions@, stream_length),
        r@.len() == 2 * positions@.len(),
{
    let mut out: Vec<u64> = Vec::new();
    let mut prev_trailing: u64 = 0;
    let n = positions.len();
    let mut i: usize = 0;
    proof {
        assert(positions@.skip(0) =~= positions@);
        lemma_edit_list_len(positions@, stream_length, 0);
    }
    while i < n
        invariant
            n == positions@.len(),
            i <= n,
            spec_positions_wf(positions@, stream_length),
            prev_trailing <= 65536,
            i == 0 ==> prev_trailing == 0,
            i > 0 ==> prev_trailing == spec_clamp_up(
                positions@[i - 1].end(), stream_length) - positions@[i - 1].end(),
            out@ + spec_edit_list_from(positions@.skip(i as int), stream_length,
                prev_trailing as int) == spec_edit_list(positions@, stream_length),
            out@.len() == 2 * i,
        decreases n - i,
    {
        let p = positions[i];
        assert(p == positions@.skip(i as int)[0]);
        let down = unencrypted_clamp(p.start());
        assert(down <= p.start()) by {
            assert((p.start() as int / 65536) * 65536 <= p.start()) by (nonlinear_arith);
        }
        let discard = p.start() - down + prev_trailing;
        let keep = p.end() - p.start();
        let up = unencrypted_clamp_next(p.end(), stream_length);
        assert(up >= p.end() && up - p.end() <= 65536) by {
            assert((p.end() as int / 65536) * 65536 <= p.end() && p.end() < (p.end() as int
                / 65536) * 65536 + 65536) by (nonlinear_arith);
        }
        let ghost pre_out = out@;
        out.push(discard);
        out.push(keep);
        proof {
            assert(out@ =~= pre_out + seq![discard, keep]);
            assert(positions@.skip(i as int).drop_first() =~= positions@.skip(i + 1));
            assert(spec_edit_list_from(positions@.skip(i as int), stream_length,
                prev_trailing as int) == seq![discard, keep] + spec_edit_list_from(
                positions@.skip(i + 1), stream_length, up - p.end()));
            assert(out@ + spec_edit_list_from(positions@.skip(i + 1), stream_length,
                up - p.end()) =~= pre_out + spec_edit_list_from(positions@.skip(i as int),
                stream_length, prev_trailing as int));
        }
        prev_trailing = up - p.end();
        i += 1;
    }
    proof {
        assert(positions@.skip(n as int).len() == 0);
        assert(out@ + Seq::<u64>::empty() =~= out@);
    }
    out
}

/// The edit list holds one `(discard, keep)` pair per position.
pub proof fn lemma_edit_list_len(ps: Seq<UnencryptedPosition>, stream_length: u64, prev: int)
    ensures
        spec_edit_list_from(ps, stream_length, prev).len() == 2 * ps.len(),
    decreases ps.len(),
{
    if ps.len() > 0 {
        lemma_edit_list_len(ps.drop_first(), stream_length, spec_clamp_up(
            ps[0].end(), stream_length) - ps[0].end());
    }
}

/// The little-endian bytes of a list of 64-bit values, in order.
pub open spec fn spec_le64_concat(vals: Seq<u64>) -> Seq<u8>
    decreases vals.len(),
{
    if vals.len() == 0 {
        Seq::<u8>::empty()
    } else {
        spec_u64_to_le_bytes(vals[0]) + spec_le64_concat(vals.drop_first())
    }
}

/// The body of a Crypt4GH data-edit-list header packet: the packet type
/// `1` and the number of edits, both little-endian 32-bit, then the edits
/// as little-endian 64-bit values.
pub open spec fn spec_edit_list_packet(edits: Seq<u64>) -> Seq<u8> {
    spec_u32_to_le_bytes(1u32) + spec_u32_to_le_bytes(edits.len() as u32) + spec_le64_concat(
        edits)
}

/// Relies on `crypt4gh::header::make_packet_data_edit_list`: the packet
/// body is the edit-list packet type (`1` as little-endian 32 bits), the
/// number of edits as little-endian 32 bits, and the edits as
/// little-endian 64-bit values. The callee takes the edits as `usize`, so
/// this contract assumes a 64-bit `usize`.
#[verifier::external_body]
pub fn make_edit_list_packet(edits: &Vec<u64>) -> (r: Vec<u8>)
    requires
        edits@.len() <= u32::MAX,
    ensures
        r@ == spec_edit_list_packet(edits@),
{
    crypt4gh::header::make_packet_data_edit_list(
        edits.iter().map(|edit| *edit as usize).collect(),
    )
}

/// The edits parsed from an edit-list packet body, if it is well-formed.
pub open spec fn spec_parse_edit_list(bytes: Seq<u8>) -> Option<Seq<u64>> {
    if bytes.len() < 8 {
        None
    } else if spec_u32_from_le_bytes(bytes.subrange(0, 4)) != 1u32 {
        None
    } else {
        let count = spec_u32_from_le_bytes(bytes.subrange(4, 8)) as int;
        if bytes.len() != 8 + 8 * count {
            None
        } else {
            Some(Seq::<u64>::new(count as nat, |k: int|
                spec_u64_from_le_bytes(bytes.subrange(8 + 8 * k, 16 + 8 * k))))
        }
    }
}

/// Parse an edit-list packet body.
pub fn parse_edit_list_packet(bytes: &Vec<u8>) -> (r: Option<Vec<u64>>)
    ensures
        match r {
            Some(edits) => spec_parse_edit_list(bytes@) == Some(edits@),
            None => spec_parse_edit_list(bytes@) is None,
        },
{
    proof {
        lemma_auto_spec_u32_to_from_le_bytes();
    }
    if bytes.len() < 8 {
        return None;
    }
    let tag = u32_from_le_bytes(slice_subrange(bytes.as_slice(), 0, 4));
    if tag != 1 {
        return None;
    }
    let count = u32_from_le_bytes(slice_subrange(bytes.as_slice(), 4, 8));
    if (bytes.len() as u64) != 8u64 + 8u64 * (count as u64) {
        proof {
            assert(spec_parse_edit_list(bytes@) is None);
        }
        return None;
    }
    let mut edits: Vec<u64> = Vec::new();
    let count_us = count as usize;
    assert(bytes@.len() <= usize::MAX);
    let mut k: usize = 0;
    while k < count_us
        invariant
            count_us == count,
            bytes@.len() == 8 + 8 * count,
            bytes@.len() <= usize::MAX,
            k <= count_us,
            edits@.len() == k,
            forall|j: int| 0 <= j < k ==> (#[trigger] edits@[j]) == spec_u64_from_le_bytes(
                bytes@.subrange(8 + 8 * j, 16 + 8 * j)),
        decreases count_us - k,
    {
        let v = u64_from_le_bytes(slice_subrange(bytes.as_slice(), 8 + 8 * k, 16 + 8 * k));
        edits.push(v);
        k += 1;
    }
    proof {
        let parsed = spec_parse_edit_list(bytes@);
        assert(parsed matches Some(s) && s =~= edits@) by {
            assert(spec_u32_from_le_bytes(bytes@.subrange(0, 4)) == 1u32);
        }
    }
    Some(edits)
}

/// Appending one value to the edit list appends its bytes to the
/// serialization.
proof fn lemma_le64_concat_index(vals: Seq<u64>, k: int)
    requires
        0 <= k < vals.len(),
    ensures
        spec_le64_concat(vals).len() == 8 * vals.len(),
        spec_le64_concat(vals).subrange(8 * k, 8 * k + 8) =~= spec_u64_to_le_bytes(vals[k]),
    decreases vals.len(),
{
    lemma_le64_concat_len(vals);
    lemma_auto_spec_u64_to_from_le_bytes();
    if k == 0 {
        lemma_le64_concat_len(vals.drop_first());
    } else {
        lemma_le64_concat_index(vals.drop_first(), k - 1);
        lemma_le64_concat_len(vals.drop_first());
        assert(spec_le64_concat(vals).subrange(8 * k, 8 * k + 8) =~= spec_le64_concat(
            vals.drop_first()).subrange(8 * (k - 1), 8 * (k - 1) + 8));
    }
}

/// The serialization holds eight bytes per value.
proof fn lemma_le64_concat_len(vals: Seq<u64>)
    ensures
        spec_le64_concat(vals).len() == 8 * vals.len(),
    decreases vals.len(),
{
    lemma_auto_spec_u64_to_from_le_bytes();
    if vals.len() > 0 {
        lemma_le64_concat_len(vals.drop_first());
    }
}

/// Round trip: parsing the serialized edit-list packet of any edit list
/// yields that edit list back.
pub proof fn lemma_edit_list_packet_round_trip(edits: Seq<u64>)
    requires
        edits.len() <= u32::MAX,
    ensures
        spec_parse_edit_list(spec_edit_list_packet(edits)) == Some(edits),
{
    lemma_auto_spec_u32_to_from_le_bytes();
    lemma_auto_spec_u64_to_from_le_bytes();
    lemma_le64_concat_len(edits);
    let bytes = spec_edit_list_packet(edits);
    assert(bytes.subrange(0, 4) =~= spec_u32_to_le_bytes(1u32));
    assert(bytes.subrange(4, 8) =~= spec_u32_to_le_bytes(edits.len() as u32));
    assert(spec_u32_from_le_bytes(bytes.subrange(0, 4)) == 1u32);
    let count = spec_u32_from_le_bytes(bytes.subrange(4, 8)) as int;
    assert(count == edits.len());
    assert(bytes.len() == 8 + 8 * count);
    let parsed = spec_parse_edit_list(bytes);
    assert(parsed matches Some(s) && s =~= edits) by {
        assert forall|k: int| 0 <= k < count implies spec_u64_from_le_bytes(
            bytes.subrange(8 + 8 * k, 16 + 8 * k)) == edits[k] by {
            lemma_le64_concat_index(edits, k);
            assert(bytes.subrange(8 + 8 * k, 16 + 8 * k) =~= spec_le64_concat(edits).subrange(
                8 * k, 8 * k + 8));
        }
    }
}

/// Round trip through the edit-list builder: re-reading the packet built
/// from positions yields exactly the edit list computed from them.
pub proof fn lemma_create_edit_list_round_trip(
    positions: Seq<UnencryptedPosition>,
    stream_length: u64,
)
    requires
        positions.len() <= 0x7FFF_FFFF,
    ensures
        spec_parse_edit_list(spec_edit_list_packet(spec_edit_list(positions, stream_length)))
            == Some(spec_edit_list(positions, stream_length)),
{
    lemma_edit_list_len(positions, stream_length, 0);
    lemma_edit_list_packet_round_trip(spec_edit_list(positions, stream_length));
}

/// The error of the Crypt4GH edit-list layer: key loading, encryption and
/// edit-list construction failures.
#[derive(Clone, Debug, PartialEq, Eq)]
pub enum EditListError {
    Crypt4GHError(String),
}

/// Bytes representing a rewritten header: the header info, the original
/// encrypted packets, and the new edit-list packet.
#[derive(Clone, Debug, PartialEq, Eq)]
pub struct Header {
    header_info: Vec<u8>,
    original_header: Vec<u8>,
    edit_list_packet: Vec<u8>,
}

impl Header {
    /// Create a header from its three parts.
    pub fn new(header_info: Vec<u8>, original_header: Vec<u8>, edit_list_packet: Vec<u8>) -> (r:
        Self)
        ensures
            r.spec_header_info() == header_info@,
            r.spec_original_header() == original_header@,
            r.spec_edit_list_packet() == edit_list_packet@,
    {
        Self { header_info, original_header, edit_list_packet }
    }

    /// The three parts.
    pub fn into_inner(self) -> (r: (Vec<u8>, Vec<u8>, Vec<u8>))
        ensures
            r.0@ == self.spec_header_info(),
            r.1@ == self.spec_original_header(),
            r.2@ == self.spec_edit_list_packet(),
    {
        (self.header_info, self.original_header, self.edit_list_packet)
    }

    /// The concatenated bytes of the whole header.
    pub fn as_slice(&self) -> (r: Vec<u8>)
        ensures
            r@ == self.spec_header_info() + self.spec_original_header()
                + self.spec_edit_list_packet(),
    {
        let mut out: Vec<u8> = Vec::new();
        out.extend_from_slice(self.header_info.as_slice());
        out.extend_from_slice(self.original_header.as_slice());
        out.extend_from_slice(self.edit_list_packet.as_slice());
        out
    }

    pub closed spec fn spec_header_info(&self) -> Seq<u8> {
        self.header_info@
    }

    pub closed spec fn spec_original_header(&self) -> Seq<u8> {
        self.original_header@
    }

    pub closed spec fn spec_edit_list_packet(&self) -> Seq<u8> {
        self.edit_list_packet@
    }
}

/// What reading a Crypt4GH header yields: the header info fields, the
/// still-encrypted header packets with their length prefixes, and the
/// edit list already present, if any.
#[derive(Clone, Debug, PartialEq, Eq)]
pub struct ScannedHeader {
    /// The eight magic bytes.
    pub magic: Vec<u8>,
    pub version: u32,
    pub packets_count: u32,
    /// Each original packet, length prefix included.
    pub packets: Vec<Vec<u8>>,
    /// The edits of an edit-list packet already present.
    pub edit_list: Option<Vec<u64>>,
}

/// The concatenation of byte frames.
pub open spec fn spec_concat_frames(frames: Seq<Seq<u8>>) -> Seq<u8>
    decreases frames.len(),
{
    if frames.len() == 0 {
        Seq::<u8>::empty()
    } else {
        frames[0] + spec_concat_frames(frames.drop_first())
    }
}

/// Concatenate byte frames.
fn concat_frames(frames: &Vec<Vec<u8>>) -> (r: Vec<u8>)
    ensures
        r@ == spec_concat_frames(frames@.map_values(|v: Vec<u8>| v@)),
{
    let ghost view = frames@.map_values(|v: Vec<u8>| v@);
    let mut out: Vec<u8> = Vec::new();
    let n = frames.len();
    let mut i: usize = 0;
    proof {
        lemma_concat_frames_take(view, 0);
    }
    while i < n
        invariant
            n == frames@.len(),
            view == frames@.map_values(|v: Vec<u8>| v@),
            i <= n,
            out@ == spec_concat_frames(view.take(i as int)),
        decreases n - i,
    {
        out.extend_from_slice(frames[i].as_slice());
        proof {
            lemma_concat_frames_snoc(view, i as int);
            assert(view[i as int] == frames@[i as int]@);
        }
        i += 1;
    }
    proof {
        assert(view.take(n as int) =~= view);
    }
    out
}

/// The empty prefix concatenates to nothing.
proof fn lemma_concat_frames_take(frames: Seq<Seq<u8>>, i: int)
    requires
        i == 0,
    ensures
        spec_concat_frames(frames.take(i)) == Seq::<u8>::empty(),
{
    assert(frames.take(0).len() == 0);
}

/// Concatenating one more frame appends its bytes.
proof fn lemma_concat_frames_snoc(frames: Seq<Seq<u8>>, i: int)
    requires
        0 <= i < frames.len(),
    ensures
        spec_concat_frames(frames.take(i + 1)) == spec_concat_frames(frames.take(i))
            + frames[i],
    decreases i,
{
    if i == 0 {
        assert(frames.take(1).len() == 1);
        assert(frames.take(1)[0] == frames[0]);
        assert(frames.take(1).drop_first().len() == 0);
        assert(spec_concat_frames(frames.take(1).drop_first()) == Seq::<u8>::empty());
        assert(spec_concat_frames(frames.take(1)) == frames[0] + Seq::<u8>::empty());
        assert(frames.take(0).len() == 0);
        assert(spec_concat_frames(frames.take(0)) == Seq::<u8>::empty());
        assert(spec_concat_frames(frames.take(0)) + frames[0] =~= frames[0]
            + Seq::<u8>::empty());
    } else {
        lemma_concat_frames_snoc(frames.drop_first(), i - 1);
        assert(frames.take(i + 1).drop_first() =~= frames.drop_first().take(i));
        assert(frames.take(i).drop_first() =~= frames.drop_first().take(i - 1));
        assert(frames.take(i + 1)[0] == frames[0] && frames.take(i)[0] == frames[0]);
        assert(frames.drop_first()[i - 1] == frames[i]);
        assert(spec_concat_frames(frames.take(i + 1)) == frames[0] + spec_concat_frames(
            frames.drop_first().take(i)));
        assert(spec_concat_frames(frames.take(i)) == frames[0] + spec_concat_frames(
            frames.drop_first().take(i - 1)));
        assert(frames[0] + (spec_concat_frames(frames.drop_first().take(i - 1)) + frames[i])
            =~= (frames[0] + spec_concat_frames(frames.drop_first().take(i - 1)))
            + frames[i]);
    }
}

/// Serialize the Crypt4GH header info: the magic bytes, then the version
/// and the packet count as little-endian 32-bit values.
pub fn serialize_header_info(magic: &Vec<u8>, version: u32, packets_count: u32) -> (r: Vec<u8>)
    ensures
        r@ == magic@ + spec_u32_to_le_bytes(version) + spec_u32_to_le_bytes(packets_count),
{
    let mut out: Vec<u8> = Vec::new();
    out.extend_from_slice(magic.as_slice());
    let v = u32_to_le_bytes(version);
    out.extend_from_slice(v.as_slice());
    let c = u32_to_le_bytes(packets_count);
    out.extend_from_slice(c.as_slice());
    out
}

/// Relies on `crypt4gh::header::encrypt` with a single method-0 key pair:
/// it encrypts the packet for the recipient with a fresh random nonce and
/// returns one sealed packet of the packet's length plus 64 bytes (a
/// 4-byte method, the 32-byte writer public key, a 12-byte nonce and a
/// 16-byte tag). Nothing else is promised of the ciphertext: it depends
/// on fresh randomness. The callee slices the first 32 bytes of the
/// private key unconditionally, so a shorter key is excluded here; a
/// recipient key of the wrong length only makes the call fail.
#[verifier::external_body]
fn encrypt_packet(packet: &Vec<u8>, privkey: &Vec<u8>, recipient_pubkey: &Vec<u8>) -> (r: Result<
    Vec<u8>,
    String,
>)
    requires
        privkey@.len() >= 32,
    ensures
        r matches Ok(bytes) ==> bytes@.len() == packet@.len() + 64,
{
    let keys = crypt4gh::Keys {
        method: 0,
        privkey: privkey.clone(),
        recipient_pubkey: recipient_pubkey.clone(),
    };
    let key_set = std::collections::HashSet::from_iter(vec![keys]);
    match crypt4gh::header::encrypt(packet, &key_set) {
        Ok(packets) => packets
            .into_iter()
            .last()
            .ok_or_else(|| "could not encrypt header packet".to_string()),
        Err(err) => Err(err.to_string()),
    }
}

/// The edit-list builder: the scanned header of the source object, the
/// plaintext positions to keep, the key pair to encrypt the new packet
/// with, and the plaintext stream length.
#[derive(Clone, Debug, PartialEq, Eq)]
pub struct EditHeader {
    scanned: Option<ScannedHeader>,
    unencrypted_positions: Vec<UnencryptedPosition>,
    private_key: Vec<u8>,
    recipient_public_key: Vec<u8>,
    stream_length: u64,
}

impl EditHeader {
    /// Create an edit-list builder.
    pub fn new(
        scanned: Option<ScannedHeader>,
        unencrypted_positions: Vec<UnencryptedPosition>,
        private_key: Vec<u8>,
        recipient_public_key: Vec<u8>,
        stream_length: u64,
    ) -> (r: Self)
        ensures
            r.spec_scanned() == scanned,
            r.spec_positions() == unencrypted_positions,
            r.spec_private_key() == private_key,
            r.spec_stream_length() == stream_length,
    {
        Self { scanned, unencrypted_positions, private_key, recipient_public_key, stream_length }
    }

    pub closed spec fn spec_scanned(&self) -> Option<ScannedHeader> {
        self.scanned
    }

    pub closed spec fn spec_positions(&self) -> Vec<UnencryptedPosition> {
        self.unencrypted_positions
    }

    pub closed spec fn spec_private_key(&self) -> Vec<u8> {
        self.private_key
    }

    pub closed spec fn spec_stream_length(&self) -> u64 {
        self.stream_length
    }

    /// Build the edit list of this builder's positions.
    pub fn create_edit_list(&self) -> (r: Vec<u64>)
        requires
            spec_positions_wf(self.spec_positions()@, self.spec_stream_length()),
        ensures
            r@ == spec_edit_list(self.spec_positions()@, self.spec_stream_length()),
    {
        create_edit_list(&self.unencrypted_positions, self.stream_length)
    }

    /// Encrypt an edit-list packet body for the recipient.
    pub fn encrypt_edit_list(&self, edit_list_packet: Vec<u8>) -> (r: Result<
        Vec<u8>,
        EditListError,
    >)
        requires
            self.spec_private_key()@.len() >= 32,
        ensures
            r matches Ok(bytes) ==> bytes@.len() == edit_list_packet@.len() + 64,
            r matches Err(e) ==> e is Crypt4GHError,
    {
        match encrypt_packet(&edit_list_packet, &self.private_key, &self.recipient_public_key) {
            Ok(bytes) => Ok(bytes),
            Err(message) => Err(EditListError::Crypt4GHError(message)),
        }
    }

    /// Rewrite the header with an appended, encrypted edit-list packet.
    /// A source that already holds an edit list is refused; a source whose
    /// header was not read yields nothing.
    pub fn edit_list(&self) -> (r: Result<Option<Header>, EditListError>)
        requires
            spec_positions_wf(self.spec_positions()@, self.spec_stream_length()),
            self.spec_positions()@.len() < 0x00FF_FFFF,
            self.spec_private_key()@.len() >= 32,
            (self.spec_scanned() matches Some(s) ==> s.packets_count < u32::MAX),
        ensures
            (self.spec_scanned() matches Some(s) && s.edit_list is Some) ==> (r matches Err(e)
                && e is Crypt4GHError),
            self.spec_scanned() is None ==> (r matches Ok(h) && h is None),
            r matches Ok(None) ==> self.spec_scanned() is None,
            r matches Ok(Some(h)) ==> {
                &&& self.spec_scanned() matches Some(s)
                &&& s.edit_list is None
                &&& h.spec_header_info() == s.magic@ + spec_u32_to_le_bytes(s.version)
                    + spec_u32_to_le_bytes((s.packets_count + 1) as u32)
                &&& h.spec_original_header() == spec_concat_frames(
                    s.packets@.map_values(|v: Vec<u8>| v@))
                &&& h.spec_edit_list_packet().len() == 4 + spec_edit_list_packet(
                    spec_edit_list(self.spec_positions()@, self.spec_stream_length())).len()
                    + 64
                &&& h.spec_edit_list_packet().subrange(0, 4) == spec_u32_to_le_bytes(
                    h.spec_edit_list_packet().len() as u32)
            },
    {
        let scanned = match &self.scanned {
            None => {
                return Ok(None);
            },
            Some(s) => s,
        };
        if scanned.edit_list.is_some() {
            return Err(
                EditListError::Crypt4GHError("edit lists already exist".to_owned()),
            );
        }
        let header_info_bytes = serialize_header_info(
            &scanned.magic,
            scanned.version,
            scanned.packets_count + 1,
        );
        let original_header = concat_frames(&scanned.packets);
        let edits = create_edit_list(&self.unencrypted_positions, self.stream_length);
        let packet = make_edit_list_packet(&edits);
        proof {
            lemma_le64_concat_len(edits@);
            lemma_auto_spec_u32_to_from_le_bytes();
        }
        let encrypted = match self.encrypt_edit_list(packet) {
            Ok(bytes) => bytes,
            Err(e) => {
                return Err(e);
            },
        };
        let framed_len: u32 = (encrypted.len() + 4) as u32;
        let mut edit_list_bytes = u32_to_le_bytes(framed_len);
        edit_list_bytes.extend_from_slice(encrypted.as_slice());
        proof {
            assert(edit_list_bytes@.subrange(0, 4) =~= spec_u32_to_le_bytes(framed_len));
        }
        Ok(Some(Header::new(header_info_bytes, original_header, edit_list_bytes)))
    }
}

/// The offset within the encrypted stream (headers aside) of a plaintext
/// offset lying on a block boundary or at the stream end: full blocks map
/// to full wire blocks, a trailing partial block to its partial wire
/// block.
pub open spec fn spec_enc_offset(x: u64) -> int {
    (x as int / 65536) * 65564 + if x % 65536 == 0 {
        0
    } else {
        x % 65536 + 28
    }
}

/// The ciphertext byte range a plaintext range maps to under the
/// transform: from the wire offset of the block boundary below its start
/// to the wire offset of the block boundary above its end, shifted by the
/// encrypted header's length.
pub open spec fn spec_enc_range(
    p: UnencryptedPosition,
    header_length: u64,
    stream_length: u64,
) -> crate::storage::BytesPosition {
    crate::storage::BytesPosition {
        start: Some((header_length + spec_enc_offset(spec_clamp_down(p.start()) as u64)) as u64),
        end: Some((header_length + spec_enc_offset(
            spec_clamp_up(p.end(), stream_length) as u64)) as u64),
        class: None,
    }
}

/// The list covers exactly the bytes of the transformed ranges of the
/// plaintext positions.
pub open spec fn spec_enc_covers_with(
    enc: Seq<crate::storage::BytesPosition>,
    ups: Seq<UnencryptedPosition>,
    header_length: u64,
    stream_length: u64,
) -> bool {
    forall|c: Option<crate::types::Class>, b: int| #![all_triggers]
        crate::storage::list_covers(enc, c, b) == (c is None && exists|k: int|
            0 <= k < ups.len() && (#[trigger] spec_enc_range(
                ups[k], header_length, stream_length)).spec_covers(None, b))
}

/// Compute the ciphertext byte range of a plaintext range.
pub fn to_encrypted(
    p: &UnencryptedPosition,
    header_length: u64,
    stream_length: u64,
) -> (r: crate::storage::BytesPosition)
    requires
        p.start() <= p.end(),
        p.end() <= stream_length,
        stream_length <= 0x0000_4000_0000_0000,
        header_length <= 0x0000_4000_0000_0000,
    ensures
        r == spec_enc_range(*p, header_length, stream_length),
{
    let down = unencrypted_clamp(p.start());
    let up = unencrypted_clamp_next(p.end(), stream_length);
    proof {
        assert(down <= p.start() && down % 65536 == 0) by {
            assert((p.start() as int / 65536) * 65536 <= p.start() && ((p.start() as int
                / 65536) * 65536) % 65536 == 0) by (nonlinear_arith);
        }
        assert(up <= stream_length);
        assert(spec_enc_offset(down) <= (down as int / 65536) * 65564 + 65564) by (
        nonlinear_arith);
        assert((down as int / 65536) <= down) by (nonlinear_arith);
        assert((up as int / 65536) <= up) by (nonlinear_arith);
    }
    let start = header_length + enc_offset(down);
    let end = header_length + enc_offset(up);
    crate::storage::BytesPosition { start: Some(start), end: Some(end), class: None }
}

/// Compute the wire offset of a plaintext offset.
fn enc_offset(x: u64) -> (r: u64)
    requires
        x <= 0x0000_4000_0000_0000,
    ensures
        r == spec_enc_offset(x),
{
    proof {
        assert((x as int / 65536) * 65564 <= (x as int) * 2) by (nonlinear_arith)
            requires
                x <= 0x0000_4000_0000_0000,
        {
        }
    }
    let blocks = x / 65536;
    let rem = x % 65536;
    proof {
        assert(blocks * 65564 <= (x as int) * 2) by (nonlinear_arith)
            requires
                blocks == x as int / 65536,
                x <= 0x0000_4000_0000_0000,
        {
        }
    }
    if rem == 0 {
        blocks * 65564
    } else {
        blocks * 65564 + rem + 28
    }
}

/// The standard base64 alphabet.
pub open spec fn spec_b64_alphabet() -> Seq<char> {
    "ABCDEFGHIJKLMNOPQRSTUVWXYZabcdefghijklmnopqrstuvwxyz0123456789+/"@
}

/// The standard base64 encoding with padding.
pub open spec fn spec_base64(bytes: Seq<u8>) -> Seq<char>
    decreases bytes.len(),
{
    let a = spec_b64_alphabet();
    if bytes.len() == 0 {
        Seq::<char>::empty()
    } else if bytes.len() == 1 {
        let b0 = bytes[0] as int;
        seq![a[b0 / 4], a[(b0 % 4) * 16], '=', '=']
    } else if bytes.len() == 2 {
        let b0 = bytes[0] as int;
        let b1 = bytes[1] as int;
        seq![a[b0 / 4], a[(b0 % 4) * 16 + b1 / 16], a[(b1 % 16) * 4], '=']
    } else {
        let b0 = bytes[0] as int;
        let b1 = bytes[1] as int;
        let b2 = bytes[2] as int;
        seq![a[b0 / 4], a[(b0 % 4) * 16 + b1 / 16], a[(b1 % 16) * 4 + b2 / 64], a[b2 % 64]]
            + spec_base64(bytes.skip(3))
    }
}

/// Relies on `base64`'s standard engine: it encodes with the standard
/// alphabet and `=` padding.
#[verifier::external_body]
fn base64_encode(bytes: &Vec<u8>) -> (r: String)
    ensures
        r@ == spec_base64(bytes@),
{
    base64::Engine::encode(&base64::engine::general_purpose::STANDARD, bytes)
}

/// The in-memory data url carrying the given bytes, base64-encoded.
pub fn base64_data_url(bytes: &Vec<u8>) -> (r: String)
    ensures
        r@ == "data:;base64,"@ + spec_base64(bytes@),
{
    let mut out = "data:;base64,".to_owned();
    let encoded = base64_encode(bytes);
    out.append(encoded.as_str());
    out
}

/// The transformed ciphertext positions of a list of plaintext positions,
/// merged into canonical form.
pub fn encrypted_positions(
    positions: &Vec<UnencryptedPosition>,
    header_length: u64,
    stream_length: u64,
) -> (r: Vec<crate::storage::BytesPosition>)
    requires
        spec_positions_wf(positions@, stream_length),
        stream_length <= 0x0000_4000_0000_0000,
        header_length <= 0x0000_4000_0000_0000,
    ensures
        crate::storage::is_canonical(r@),
        spec_enc_covers_with(r@, positions@, header_length, stream_length),
{
    let mut ranges: Vec<crate::storage::BytesPosition> = Vec::new();
    let n = positions.len();
    let mut i: usize = 0;
    while i < n
        invariant
            n == positions@.len(),
            i <= n,
            spec_positions_wf(positions@, stream_length),
            stream_length <= 0x0000_4000_0000_0000,
            header_length <= 0x0000_4000_0000_0000,
            crate::storage::all_wf(ranges@),
            ranges@.len() == i,
            forall|k: int| 0 <= k < i ==> (#[trigger] ranges@[k]) == spec_enc_range(
                positions@[k], header_length, stream_length),
        decreases n - i,
    {
        let p = positions[i];
        let bp = to_encrypted(&p, header_length, stream_length);
        proof {
            assert(bp.wf()) by {
                lemma_enc_offset_monotone(
                    spec_clamp_down(p.start()) as u64,
                    spec_clamp_up(p.end(), stream_length) as u64,
                );
                assert(spec_clamp_down(p.start()) <= spec_clamp_up(p.end(), stream_length))
                    by {
                    assert((p.start() as int / 65536) * 65536 <= p.start()) by (
                    nonlinear_arith);
                    assert(p.end() <= spec_clamp_up(p.end(), stream_length)) by {
                        assert((p.end() as int / 65536) * 65536 <= p.end() && p.end() < (
                        p.end() as int / 65536) * 65536 + 65536) by (nonlinear_arith);
                    }
                }
            }
        }
        let ghost pre = ranges@;
        ranges.push(bp);
        proof {
            assert(crate::storage::all_wf(ranges@)) by {
                assert(forall|k: int| 0 <= k < pre.len() ==> ranges@[k] == pre[k]);
            }
        }
        i += 1;
    }
    let ghost raw = ranges@;
    let merged = crate::storage::BytesPosition::merge_all(ranges);
    proof {
        assert forall|c: Option<crate::types::Class>, b: int| #![all_triggers]
            crate::storage::list_covers(merged@, c, b) == (c is None && exists|k: int|
                0 <= k < positions@.len() && (#[trigger] spec_enc_range(
                    positions@[k], header_length, stream_length)).spec_covers(None, b)) by {
            if crate::storage::list_covers(raw, c, b) {
                let k = choose|k: int|
                    0 <= k < raw.len() && (#[trigger] raw[k]).spec_covers(c, b);
                assert(spec_enc_range(positions@[k], header_length, stream_length).spec_covers(
                    None, b));
            }
            if c is None && exists|k: int|
                0 <= k < positions@.len() && (#[trigger] spec_enc_range(
                    positions@[k], header_length, stream_length)).spec_covers(None, b) {
                let k = choose|k: int|
                    0 <= k < positions@.len() && (#[trigger] spec_enc_range(
                        positions@[k], header_length, stream_length)).spec_covers(None, b);
                assert(raw[k].spec_covers(c, b));
            }
        }
        assert(spec_enc_covers_with(merged@, positions@, header_length, stream_length));
    }
    merged
}

/// The wire offset is monotone in the plaintext offset.
proof fn lemma_enc_offset_monotone(x: u64, y: u64)
    requires
        x <= y,
    ensures
        spec_enc_offset(x) <= spec_enc_offset(y),
{
    let bx = x as int / 65536;
    let by = y as int / 65536;
    assert(bx <= by) by {
        vstd::arithmetic::div_mod::lemma_div_is_ordered(x as int, y as int, 65536);
    }
    if bx == by {
        assert(x % 65536 <= y % 65536) by (nonlinear_arith)
            requires
                x <= y,
                bx == x as int / 65536,
                by == y as int / 65536,
                bx == by,
        {
        }
    } else {
        assert(bx + 1 <= by);
        assert(spec_enc_offset(x) <= bx * 65564 + 65564) by {
            assert(x % 65536 < 65536) by (nonlinear_arith);
        }
        assert((bx + 1) * 65564 <= by * 65564) by (nonlinear_arith)
            requires
                bx + 1 <= by,
        {
        }
        assert(spec_enc_offset(y) >= by * 65564) by {
            assert(y % 65536 >= 0) by (nonlinear_arith);
        }
    }
}

/// The urls after the header data url are the ranged urls, in order, of a
/// canonical ciphertext position list covering exactly the transformed
/// ranges of the plaintext positions.
pub open spec fn spec_crypt4gh_urls(
    resp: crate::types::Response,
    enc: Seq<crate::storage::BytesPosition>,
    ups: Seq<UnencryptedPosition>,
    header_length: u64,
    stream_length: u64,
    url: Seq<char>,
) -> bool {
    &&& crate::storage::is_canonical(enc)
    &&& spec_enc_covers_with(enc, ups, header_length, stream_length)
    &&& resp.urls@.len() == enc.len() + 1
    &&& crate::response::spec_urls_match(
        resp.urls@.skip(1), enc, url, crate::types::Class::Body)
}

/// Assemble the response of a Crypt4GH query: the rewritten header as an
/// in-memory data url of class `header`, then the transformed ciphertext
/// ranges of the object.
pub fn crypt4gh_response(
    format: crate::types::Format,
    rewritten: &Header,
    positions: &Vec<UnencryptedPosition>,
    header_length: u64,
    stream_length: u64,
    url: &str,
) -> (r: crate::types::Response)
    requires
        spec_positions_wf(positions@, stream_length),
        stream_length <= 0x0000_4000_0000_0000,
        header_length <= 0x0000_4000_0000_0000,
    ensures
        r.format == format,
        r.urls@.len() >= 1,
        r.urls@[0].url@ == "data:;base64,"@ + spec_base64(
            rewritten.spec_header_info() + rewritten.spec_original_header()
                + rewritten.spec_edit_list_packet()),
        r.urls@[0].class == Some(crate::types::Class::Header),
        r.urls@[0].headers is None,
        exists|enc: Seq<crate::storage::BytesPosition>| #[trigger]
            spec_crypt4gh_urls(r, enc, positions@, header_length, stream_length, url@),
{
    let header_bytes = rewritten.as_slice();
    let data_url = base64_data_url(&header_bytes);
    let header_url = crate::types::Url::new(data_url.as_str()).with_class(
        crate::types::Class::Header,
    );
    let ranges = encrypted_positions(positions, header_length, stream_length);
    let mut urls: Vec<crate::types::Url> = Vec::new();
    urls.push(header_url);
    let mut range_urls = crate::response::urls_for_positions(
        &ranges,
        url,
        crate::types::Class::Body,
    );
    let ghost pre = urls@;
    let ghost rng_urls = range_urls@;
    urls.append(&mut range_urls);
    let resp = crate::types::Response::new(format, urls);
    proof {
        assert(resp.urls@[0] == pre[0]);
        assert(resp.urls@.skip(1) =~= rng_urls);
        assert(spec_crypt4gh_urls(
            resp, ranges@, positions@, header_length, stream_length, url@));
    }
    resp
}

/// The plaintext range a resolved byte position clamps to: an absent
/// start means the stream start, an absent end its end, and nothing
/// reaches past the stream.
pub open spec fn spec_clamped(
    pos: crate::storage::BytesPosition,
    stream_length: u64,
) -> UnencryptedPosition {
    let e = if pos.spec_end() <= stream_length {
        pos.spec_end()
    } else {
        stream_length as int
    };
    let s = if pos.spec_start() <= e {
        pos.spec_start()
    } else {
        e
    };
    UnencryptedPosition { start: s as u64, end: e as u64 }
}

/// The plaintext ranges of resolved byte positions, clamped into the
/// stream.
pub fn unencrypted_positions_from(
    positions: &Vec<crate::storage::BytesPosition>,
    stream_length: u64,
) -> (r: Vec<UnencryptedPosition>)
    ensures
        spec_positions_wf(r@, stream_length),
        r@ == positions@.map_values(
            |pos: crate::storage::BytesPosition| spec_clamped(pos, stream_length),
        ),
{
    let mut out: Vec<UnencryptedPosition> = Vec::new();
    let n = positions.len();
    let mut i: usize = 0;
    while i < n
        invariant
            n == positions@.len(),
            i <= n,
            out@.len() == i,
            spec_positions_wf(out@, stream_length),
            forall|k: int| 0 <= k < i ==> (#[trigger] out@[k]) == spec_clamped(
                positions@[k], stream_length),
        decreases n - i,
    {
        let pos = positions[i];
        let raw_end: u64 = match pos.end {
            Some(e) => if e <= stream_length {
                e
            } else {
                stream_length
            },
            None => stream_length,
        };
        let raw_start: u64 = match pos.start {
            Some(s) => if s <= raw_end {
                s
            } else {
                raw_end
            },
            None => 0,
        };
        let ghost pre = out@;
        out.push(UnencryptedPosition::new(raw_start, raw_end));
        proof {
            assert(forall|k: int| 0 <= k < pre.len() ==> out@[k] == pre[k]);
            assert(out@[i as int] == spec_clamped(positions@[i as int], stream_length));
        }
        i += 1;
    }
    proof {
        assert(out@ =~= positions@.map_values(
            |pos: crate::storage::BytesPosition| spec_clamped(pos, stream_length),
        ));
    }
    out
}

/// The whole success contract of a resolved Crypt4GH response: the
/// rewritten header rides first as a data url, and the remaining urls
/// carry the ciphertext transforms of plaintext positions that resolve
/// the query.
pub open spec fn spec_crypt4gh_resolve_ok(
    resp: crate::types::Response,
    query: crate::types::Query,
    refs: Seq<crate::from_storage::ReferenceMeta>,
    index: crate::index::BinningIndex,
    header_end: u64,
    stream_length: u64,
    rewritten: Header,
    original_header_length: u64,
    url: Seq<char>,
) -> bool {
    &&& crate::from_storage::spec_query_fault(query, refs, index) is None
    &&& resp.format == query.format
    &&& resp.urls@.len() >= 1
    &&& resp.urls@[0].url@ == "data:;base64,"@ + spec_base64(
        rewritten.spec_header_info() + rewritten.spec_original_header()
            + rewritten.spec_edit_list_packet())
    &&& resp.urls@[0].class == Some(crate::types::Class::Header)
    &&& exists|
        plain: Vec<crate::storage::BytesPosition>,
        ups: Seq<UnencryptedPosition>,
        enc: Seq<crate::storage::BytesPosition>,
    |
        #![trigger crate::from_storage::spec_resolve_post(
            Ok(plain), query, refs, index, header_end, stream_length,
        ), spec_crypt4gh_urls(resp, enc, ups, original_header_length, stream_length, url)]
        {
            &&& crate::from_storage::spec_resolve_post(
                Ok(plain), query, refs, index, header_end, stream_length)
            &&& ups == plain@.map_values(
                |pos: crate::storage::BytesPosition| spec_clamped(pos, stream_length),
            )
            &&& spec_crypt4gh_urls(
                resp, enc, ups, original_header_length, stream_length, url)
        }
}

/// Resolve a Crypt4GH query end to end: the plaintext byte positions of
/// the query over the decrypted layout, clamped into the stream, become
/// the ciphertext ranges of the stored object, prefixed by the rewritten
/// header as an in-memory data url of class `header`.
pub fn resolve_crypt4gh_response(
    query: &crate::types::Query,
    refs: &Vec<crate::from_storage::ReferenceMeta>,
    index: &crate::index::BinningIndex,
    header_end: u64,
    stream_length: u64,
    rewritten: &Header,
    original_header_length: u64,
    url: &str,
) -> (r: Result<crate::types::Response, crate::types::HtsGetError>)
    requires
        index.wf(),
        stream_length >= crate::search::BGZF_EOF_LEN,
        1 <= header_end <= stream_length - crate::search::BGZF_EOF_LEN,
        crate::from_storage::spec_unmapped_start(*index, header_end) <= stream_length
            - crate::search::BGZF_EOF_LEN,
        stream_length <= 0x0000_4000_0000_0000,
        original_header_length <= 0x0000_4000_0000_0000,
    ensures
        match r {
            Ok(resp) => spec_crypt4gh_resolve_ok(
                resp, *query, refs@, *index, header_end, stream_length, *rewritten,
                original_header_length, url@,
            ),
            Err(err) => {
                match crate::from_storage::spec_query_fault(*query, refs@, *index) {
                    Some(crate::from_storage::QueryFault::AbsentReference) => err is NotFound,
                    Some(crate::from_storage::QueryFault::BadInterval) => err is InvalidRange,
                    None => false,
                }
            },
        },
{
    let positions = crate::from_storage::resolve_bgzf_query(
        query,
        refs,
        index,
        header_end,
        stream_length,
    )?;
    let ghost plain = positions;
    let unencrypted = unencrypted_positions_from(&positions, stream_length);
    let resp = crypt4gh_response(
        query.format,
        rewritten,
        &unencrypted,
        original_header_length,
        stream_length,
        url,
    );
    proof {
        assert(crate::from_storage::spec_resolve_post(
            Ok(plain), *query, refs@, *index, header_end, stream_length));
        assert(unencrypted@ == plain@.map_values(
            |pos: crate::storage::BytesPosition| spec_clamped(pos, stream_length),
        ));
        assert(spec_crypt4gh_resolve_ok(
            resp, *query, refs@, *index, header_end, stream_length, *rewritten,
            original_header_length, url@));
    }
    Ok(resp)
}

} // verus!
