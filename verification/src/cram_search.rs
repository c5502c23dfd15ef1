//! The CRAM search engine: container-based index traversal over the CRAI
//! records, without BGZF.

use vstd::prelude::*;
use std::sync::Arc;
use crate::from_storage::{ReferenceMeta, append_positions, find_reference, lemma_first_match_unique};
use crate::search::{spec_seq_start, spec_seq_end};
use crate::search::strictly_sorted;
use crate::storage::{
    BytesPosition, all_nonempty, all_wf, drop_empty, is_canonical, lemma_covers_push,
    list_covers,
};
use crate::types::{Class, Format, HtsGetError, Query};
use vstd::string::StringExecFns;

verus! {

/// The length of the CRAM end-of-file container in bytes.
pub const CRAM_EOF_LEN: u64 = 38;

/// The greatest one-based position a CRAM slice can start at.
pub const MAX_CRAM_POSITION: u32 = 0xFFFF_FFFE;

/// One record of a CRAI index: the alignment window of a slice and where
/// the slice lives in the file.
#[derive(Clone, Copy, Debug, PartialEq, Eq, Structural)]
pub struct CraiRecord {
    /// The reference sequence the slice aligns to; `None` for unplaced
    /// records.
    pub ref_id: Option<u32>,
    /// One-based alignment start.
    pub align_start: u32,
    pub align_span: u32,
    /// The absolute offset of the slice's container in the file.
    pub offset: u64,
    pub landmark: u64,
    pub slice_len: u64,
}

/// Whether the slice of `rec` holds records of reference `ref_id` that
/// overlap the one-based closed interval `[qs, qe]`.
pub open spec fn spec_slice_matches(rec: CraiRecord, ref_id: Option<u32>, qs: u32, qe: u32) -> bool {
    &&& rec.ref_id == ref_id
    &&& rec.align_start <= qe
    &&& qs < rec.align_start + rec.align_span
}

/// The byte position of a matching record: its container offset up to the
/// next greater container offset among all records, or the end-of-file
/// container.
pub open spec fn spec_cram_range(rec: CraiRecord, offsets: Seq<u64>, eof_start: u64) -> BytesPosition {
    BytesPosition {
        start: Some(rec.offset),
        end: Some(crate::search::spec_first_greater_or(offsets, rec.offset, eof_start) as u64),
        class: None,
    }
}

/// Select the byte positions of all records matching reference `ref_id`
/// and the interval `[qs, qe]`.
fn cram_positions_for(
    crai: &Vec<CraiRecord>,
    offsets: &Vec<u64>,
    eof_start: u64,
    ref_id: Option<u32>,
    qs: u32,
    qe: u32,
) -> (r: Vec<BytesPosition>)
    ensures
        forall|k: int| #![trigger r@[k]]
            0 <= k < r@.len() ==> exists|j: int|
                0 <= j < crai@.len() && spec_slice_matches(#[trigger] crai@[j], ref_id, qs, qe)
                    && r@[k] == spec_cram_range(crai@[j], offsets@, eof_start),
        forall|j: int|
            0 <= j < crai@.len() && spec_slice_matches(#[trigger] crai@[j], ref_id, qs, qe)
                ==> r@.contains(spec_cram_range(crai@[j], offsets@, eof_start)),
{
    let mut out: Vec<BytesPosition> = Vec::new();
    let n = crai.len();
    let mut i: usize = 0;
    while i < n
        invariant
            n == crai@.len(),
            i <= n,
            forall|k: int| #![trigger out@[k]]
                0 <= k < out@.len() ==> exists|j: int|
                    0 <= j < crai@.len() && spec_slice_matches(
                        #[trigger] crai@[j], ref_id, qs, qe) && out@[k] == spec_cram_range(
                        crai@[j], offsets@, eof_start),
            forall|j: int|
                0 <= j < i && spec_slice_matches(#[trigger] crai@[j], ref_id, qs, qe)
                    ==> out@.contains(spec_cram_range(crai@[j], offsets@, eof_start)),
        decreases n - i,
    {
        let rec = crai[i];
        let same_ref = match (rec.ref_id, ref_id) {
            (None, None) => true,
            (Some(a), Some(b)) => a == b,
            _ => false,
        };
        if same_ref && rec.align_start <= qe && (qs as u64) < rec.align_start as u64
            + rec.align_span as u64 {
            let ghost pre = out@;
            let end = crate::search::first_greater_or(offsets, rec.offset, eof_start);
            out.push(BytesPosition { start: Some(rec.offset), end: Some(end), class: None });
            proof {
                assert(out@[out@.len() - 1] == spec_cram_range(
                    crai@[i as int], offsets@, eof_start));
                assert(forall|k: int| 0 <= k < pre.len() ==> out@[k] == pre[k]);
                assert forall|j: int|
                    0 <= j < i + 1 && spec_slice_matches(#[trigger] crai@[j], ref_id, qs, qe)
                        implies out@.contains(spec_cram_range(crai@[j], offsets@, eof_start)) by {
                    if j < i {
                        let k = choose|k: int|
                            0 <= k < pre.len() && pre[k] == spec_cram_range(
                                crai@[j], offsets@, eof_start);
                        assert(out@[k] == spec_cram_range(crai@[j], offsets@, eof_start));
                    }
                }
            }
        }
        i += 1;
    }
    out
}

/// The search engine for CRAM files over a storage backend.
#[derive(Debug)]
pub struct CramSearch<S> {
    storage: Arc<S>,
}

impl<S> CramSearch<S> {
    /// Create a CRAM search over the shared storage handle.
    pub fn new(storage: Arc<S>) -> (r: Self)
        ensures
            r.spec_storage() == storage,
    {
        Self { storage }
    }

    pub closed spec fn spec_storage(&self) -> Arc<S> {
        self.storage
    }

    /// The format this engine serves.
    pub fn get_format(&self) -> (r: Format)
        ensures
            r == Format::Cram,
    {
        Format::Cram
    }
}

/// The reference id a CRAM query names: the slices of unplaced records
/// for `*`, else the position of the first header reference of that name.
pub open spec fn spec_cram_ref_id(query: Query, refs: Seq<ReferenceMeta>) -> Option<u32>
    recommends
        query.reference_name is Some,
{
    let name = query.reference_name->Some_0;
    if name@ == "*"@ {
        None
    } else {
        let i = choose|i: int|
            0 <= i < refs.len() && (#[trigger] refs[i]).name@ == name@ && (forall|j: int|
                0 <= j < i ==> (#[trigger] refs[j]).name@ != name@);
        Some(i as u32)
    }
}

/// The bytes of the object a CRAM query with a reference name asks for,
/// before the canonical merge: the header container, the containers of
/// the matching slices, and the end-of-file container.
pub open spec fn spec_cram_covers(
    query: Query,
    refs: Seq<ReferenceMeta>,
    crai: Seq<CraiRecord>,
    offsets: Seq<u64>,
    header_end: u64,
    file_size: u64,
    c: Option<Class>,
    b: int,
) -> bool {
    c is None && b >= 0 && {
        ||| b < header_end
        ||| file_size - CRAM_EOF_LEN <= b < file_size
        ||| exists|j: int|
            {
                &&& 0 <= j < crai.len()
                &&& spec_slice_matches(
                    #[trigger] crai[j],
                    spec_cram_ref_id(query, refs),
                    spec_seq_start(query.interval),
                    spec_seq_end(query.interval, MAX_CRAM_POSITION),
                )
                &&& spec_cram_range(crai[j], offsets, (file_size - CRAM_EOF_LEN) as u64).spec_covers(
                    None, b)
            }
    }
}

/// The list holds exactly the container offsets of the CRAI records,
/// strictly ascending: the concrete list slice ends are rounded to.
pub open spec fn spec_container_offsets(crai: Seq<CraiRecord>, offsets: Seq<u64>) -> bool {
    &&& strictly_sorted(offsets)
    &&& (forall|v: u64| #[trigger] offsets.contains(v) ==> exists|j: int|
        0 <= j < crai.len() && (#[trigger] crai[j]).offset == v)
    &&& (forall|j: int| 0 <= j < crai.len() ==> offsets.contains((#[trigger] crai[j]).offset))
}

/// The positions cover exactly what the CRAM query asks for, with the
/// container ends taken from the offset list `offsets`.
pub open spec fn spec_cram_covers_with(
    positions: Seq<BytesPosition>,
    query: Query,
    refs: Seq<ReferenceMeta>,
    crai: Seq<CraiRecord>,
    offsets: Seq<u64>,
    header_end: u64,
    file_size: u64,
) -> bool {
    forall|c: Option<Class>, b: int| #![all_triggers]
        list_covers(positions, c, b) == spec_cram_covers(
            query, refs, crai, offsets, header_end, file_size, c, b)
}

/// The contract of `resolve_cram_query`.
pub open spec fn spec_cram_resolve_post(
    r: Result<Vec<BytesPosition>, HtsGetError>,
    query: Query,
    refs: Seq<ReferenceMeta>,
    crai: Seq<CraiRecord>,
    header_end: u64,
    file_size: u64,
) -> bool {
    match r {
        Ok(positions) => {
            &&& is_canonical(positions@)
            &&& all_wf(positions@)
            &&& all_nonempty(positions@)
            &&& (query.class == Class::Header ==> positions@ =~= seq![
                BytesPosition { start: None, end: Some(header_end), class: None },
            ])
            &&& (query.reference_name is None && query.class != Class::Header ==> positions@
                =~= seq![BytesPosition { start: None, end: Some(file_size), class: None }])
            &&& (query.class != Class::Header && (query.reference_name matches Some(nm) && (nm@
                == "*"@ || exists|i: int|
                0 <= i < refs.len() && (#[trigger] refs[i]).name@ == nm@))
                ==> exists|offsets: Seq<u64>|
                    (#[trigger] spec_cram_covers_with(
                        positions@, query, refs, crai, offsets, header_end, file_size))
                        && spec_container_offsets(crai, offsets))
        },
        Err(err) => {
            &&& err is NotFound
            &&& query.reference_name matches Some(nm)
            &&& nm@ != "*"@
            &&& forall|i: int| 0 <= i < refs.len() ==> (#[trigger] refs[i]).name@ != nm@
        },
    }
}

/// Resolve a CRAM query to canonical byte positions: the header container
/// first, the containers of the matching slices, and the end-of-file
/// container last.
#[verifier::rlimit(100)]
#[verifier::spinoff_prover]
pub fn resolve_cram_query(
    query: &Query,
    refs: &Vec<ReferenceMeta>,
    crai: &Vec<CraiRecord>,
    header_end: u64,
    file_size: u64,
) -> (r: Result<Vec<BytesPosition>, HtsGetError>)
    requires
        file_size >= CRAM_EOF_LEN,
        1 <= header_end <= file_size - CRAM_EOF_LEN,
        refs@.len() <= u32::MAX,
        forall|j: int| 0 <= j < crai@.len() ==> (#[trigger] crai@[j]).offset <= file_size
            - CRAM_EOF_LEN,
    ensures
        spec_cram_resolve_post(r, *query, refs@, crai@, header_end, file_size),
{
    let ghost gq = *query;
    if matches!(query.class, Class::Header) {
        let mut out: Vec<BytesPosition> = Vec::new();
        out.push(BytesPosition { start: None, end: Some(header_end), class: None });
        proof {
            assert(is_canonical(out@));
            assert(all_nonempty(out@)) by {
                assert(out@[0].spec_start() < out@[0].spec_end());
            }
            assert(spec_cram_resolve_post(
                Ok(out), gq, refs@, crai@, header_end, file_size));
        }
        return Ok(out);
    }
    let eof_start = file_size - CRAM_EOF_LEN;
    let name = match &query.reference_name {
        None => {
            let out = all_whole_file(file_size);
            proof {
                assert(is_canonical(out@));
                assert(all_nonempty(out@)) by {
                    assert(out@[0].spec_start() < out@[0].spec_end());
                }
                assert(spec_cram_resolve_post(
                    Ok(out), gq, refs@, crai@, header_end, file_size));
            }
            return Ok(out);
        },
        Some(n) => n,
    };
    let star = "*".to_owned();
    let id: Option<u32> = if *name == star {
        None
    } else {
        match find_reference(refs, name) {
            None => {
                let mut msg = "Reference name not found in the header: ".to_owned();
                msg.append(name.as_str());
                let err = HtsGetError::NotFound(msg);
                proof {
                    assert(spec_cram_resolve_post(
                        Err(err), gq, refs@, crai@, header_end, file_size));
                }
                return Err(err);
            },
            Some(i) => Some(i as u32),
        }
    };
    let qs: u32 = match query.interval.start {
        Some(s) => s,
        None => 1,
    };
    let qe: u32 = match query.interval.end {
        Some(e) => e,
        None => MAX_CRAM_POSITION,
    };
    let mut offsets: Vec<u64> = Vec::new();
    let n = crai.len();
    let mut i: usize = 0;
    while i < n
        invariant
            n == crai@.len(),
            i <= n,
            strictly_sorted(offsets@),
            forall|v: u64| #[trigger] offsets@.contains(v) ==> exists|j: int|
                0 <= j < i && (#[trigger] crai@[j]).offset == v,
            forall|j: int| 0 <= j < i ==> offsets@.contains((#[trigger] crai@[j]).offset),
        decreases n - i,
    {
        let ghost pre = offsets@;
        crate::search::push_sorted_unique(&mut offsets, crai[i].offset);
        proof {
            assert forall|v: u64| #[trigger] offsets@.contains(v) implies exists|j: int|
                0 <= j < i + 1 && (#[trigger] crai@[j]).offset == v by {
                if pre.contains(v) {
                    let j = choose|j: int| 0 <= j < i && (#[trigger] crai@[j]).offset == v;
                } else {
                    assert(crai@[i as int].offset == v);
                }
            }
        }
        i += 1;
    }
    proof {
        assert(spec_container_offsets(crai@, offsets@));
    }
    let ranges = cram_positions_for(crai, &offsets, eof_start, id, qs, qe);
    let mut positions: Vec<BytesPosition> = Vec::new();
    positions.push(BytesPosition { start: None, end: Some(header_end), class: None });
    positions.push(
        BytesPosition { start: Some(eof_start), end: Some(file_size), class: None },
    );
    let ghost base = positions@;
    let ghost rgs = ranges@;
    let ghost offs = offsets@;
    proof {
        assert(id == spec_cram_ref_id(gq, refs@)) by {
            match id {
                Some(found) => {
                    let wi = choose|wi: int|
                        0 <= wi < refs@.len() && (#[trigger] refs@[wi]).name@ == name@ && (
                        forall|j: int|
                            0 <= j < wi ==> (#[trigger] refs@[j]).name@ != name@);
                    lemma_first_match_unique(refs@, name@, wi, found as int);
                },
                None => {},
            }
        }
        assert(qs == spec_seq_start(gq.interval));
        assert(qe == spec_seq_end(gq.interval, MAX_CRAM_POSITION));
        assert(all_wf(base)) by {
            assert(base[0].wf() && base[1].wf());
        }
        assert(all_wf(rgs)) by {
            assert forall|k: int| 0 <= k < rgs.len() implies (#[trigger] rgs[k]).wf() by {
                let j = choose|j: int|
                    0 <= j < crai@.len() && spec_slice_matches(#[trigger] crai@[j], id, qs, qe)
                        && rgs[k] == spec_cram_range(crai@[j], offs, eof_start);
                crate::search::lemma_first_greater_or_ge(offs, crai@[j].offset, eof_start);
            }
        }
    }
    append_positions(&mut positions, ranges);
    let merged = drop_empty(BytesPosition::merge_all(positions));
    proof {
        assert forall|c: Option<Class>, b: int| #![all_triggers]
            list_covers(merged@, c, b) == spec_cram_covers(
                gq, refs@, crai@, offs, header_end, file_size, c, b) by {
            assert(list_covers(base, c, b) == (c is None && b >= 0 && (b < header_end || (
            eof_start <= b < file_size)))) by {
                if list_covers(base, c, b) {
                    let k = choose|k: int|
                        0 <= k < base.len() && (#[trigger] base[k]).spec_covers(c, b);
                }
                if c is None && b >= 0 && b < header_end {
                    assert(base[0].spec_covers(c, b));
                }
                if c is None && b >= 0 && eof_start <= b < file_size {
                    assert(base[1].spec_covers(c, b));
                }
            }
            if list_covers(rgs, c, b) {
                let k = choose|k: int|
                    0 <= k < rgs.len() && (#[trigger] rgs[k]).spec_covers(c, b);
                let j = choose|j: int|
                    0 <= j < crai@.len() && spec_slice_matches(#[trigger] crai@[j], id, qs, qe)
                        && rgs[k] == spec_cram_range(crai@[j], offs, eof_start);
                assert(spec_cram_covers(
                    gq, refs@, crai@, offs, header_end, file_size, c, b));
            }
            if spec_cram_covers(gq, refs@, crai@, offs, header_end, file_size, c, b) {
                if !(b < header_end) && !(eof_start <= b < file_size) {
                    let j = choose|j: int|
                        {
                            &&& 0 <= j < crai@.len()
                            &&& spec_slice_matches(
                                #[trigger] crai@[j],
                                spec_cram_ref_id(gq, refs@),
                                spec_seq_start(gq.interval),
                                spec_seq_end(gq.interval, MAX_CRAM_POSITION),
                            )
                            &&& spec_cram_range(crai@[j], offs, eof_start).spec_covers(None, b)
                        };
                    assert(rgs.contains(spec_cram_range(crai@[j], offs, eof_start)));
                    let k = choose|k: int|
                        0 <= k < rgs.len() && rgs[k] == spec_cram_range(
                            crai@[j], offs, eof_start);
                    assert(rgs[k].spec_covers(c, b));
                }
            }
        }
        assert(spec_cram_covers_with(
            merged@, gq, refs@, crai@, offs, header_end, file_size));
        assert(spec_container_offsets(crai@, offs));
        assert(spec_cram_resolve_post(
            Ok(merged), gq, refs@, crai@, header_end, file_size)) by {
            assert(is_canonical(merged@));
            assert(all_wf(merged@));
            assert(all_nonempty(merged@));
            assert(!(gq.class == Class::Header));
            assert(!(gq.reference_name is None));
            assert(exists|offsets: Seq<u64>|
                (#[trigger] spec_cram_covers_with(
                    merged@, gq, refs@, crai@, offsets, header_end, file_size))
                    && spec_container_offsets(crai@, offsets));
        }
    }
    Ok(merged)
}

/// The whole-file position of a query without a reference name.
fn all_whole_file(file_size: u64) -> (r: Vec<BytesPosition>)
    ensures
        r@ =~= seq![BytesPosition { start: None, end: Some(file_size), class: None }],
{
    let mut out: Vec<BytesPosition> = Vec::new();
    out.push(BytesPosition { start: None, end: Some(file_size), class: None });
    out
}

} // verus!
