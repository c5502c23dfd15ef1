//! Resolving a query against the parsed header and index of an object:
//! reference-sequence lookup, the unmapped and whole-file paths, and the
//! canonical merge of the resulting byte positions.

use vstd::prelude::*;
use vstd::string::StringExecFns;
use std::sync::Arc;
use crate::index::{BinningIndex, Chunk, spec_vp_compressed};
use crate::search::{
    BGZF_EOF_LEN, all_byte_ranges, get_byte_ranges_for_reference_sequence_bgzf,
    header_byte_range, possible_positions, spec_byte_range_of_chunk, spec_chunk_selected,
    spec_interval_empty, spec_interval_invalid, spec_is_index_offset, spec_last_interval,
    spec_seq_end, spec_seq_start, strictly_sorted, unmapped_byte_ranges,
};
use crate::storage::{
    BytesPosition, all_nonempty, all_wf, drop_empty, is_canonical, lemma_covers_push,
    list_covers,
};
use crate::decimal::spec_decimal;
use crate::types::{Class, Format, HtsGetError, Query, Response};

verus! {

/// The maximum one-based position the binning schemes of CSI and TBI can
/// address.
pub const MAX_SEQ_POSITION: u32 = 0x1FFF_FFFF;

/// What a search knows about one reference sequence of the file's header:
/// its name and, where the header states one, its length.
#[derive(Clone, Debug, PartialEq, Eq)]
pub struct ReferenceMeta {
    pub name: String,
    pub len: Option<u32>,
}

/// Find the first reference sequence with the given name.
pub fn find_reference(refs: &Vec<ReferenceMeta>, name: &String) -> (r: Option<usize>)
    ensures
        match r {
            Some(i) => i < refs@.len() && refs@[i as int].name@ == name@ && forall|j: int|
                0 <= j < i ==> (#[trigger] refs@[j]).name@ != name@,
            None => forall|j: int| 0 <= j < refs@.len() ==> (#[trigger] refs@[j]).name@ != name@,
        },
{
    let n = refs.len();
    let mut i: usize = 0;
    while i < n
        invariant
            n == refs@.len(),
            i <= n,
            forall|j: int| 0 <= j < i ==> (#[trigger] refs@[j]).name@ != name@,
        decreases n - i,
    {
        if refs[i].name == *name {
            return Some(i);
        }
        i += 1;
    }
    None
}

/// The start of the unmapped-reads region: the block of the greatest
/// linear-index virtual position, or the end of the header when the index
/// records none.
pub open spec fn spec_unmapped_start(index: BinningIndex, header_end: u64) -> u64 {
    match spec_last_interval(index.ref_seqs@) {
        Some(vp) => spec_vp_compressed(vp),
        None => header_end,
    }
}

/// The effective greatest one-based position of reference `i`: the length
/// the header states, or the largest position the binning scheme can
/// address.
pub open spec fn spec_max_seq_position(refs: Seq<ReferenceMeta>, i: int) -> u32 {
    match refs[i].len {
        Some(l) => l,
        None => MAX_SEQ_POSITION,
    }
}

/// The bytes of the object a query asks for, by class tag `c` and byte
/// `b`, before the canonical merge.
pub open spec fn spec_query_covers(
    query: Query,
    refs: Seq<ReferenceMeta>,
    index: BinningIndex,
    header_end: u64,
    file_size: u64,
    positions: Seq<u64>,
    c: Option<Class>,
    b: int,
) -> bool {
    c is None && b >= 0 && {
        if query.class == Class::Header {
            b < header_end
        } else {
            match query.reference_name {
                None => b < file_size,
                Some(name) => {
                    if name@ == "*"@ && query.format == Format::Bam {
                        b < header_end || (spec_unmapped_start(index, header_end) <= b
                            < file_size)
                    } else {
                        exists|i: int|
                            {
                                &&& 0 <= i < refs.len()
                                &&& (#[trigger] refs[i]).name@ == name@
                                &&& (forall|j: int| 0 <= j < i ==> (#[trigger] refs[j]).name@
                                    != name@)
                                &&& (b < header_end || (!spec_interval_empty(query.interval)
                                    && exists|ch: Chunk|
                                    {
                                        &&& #[trigger] spec_chunk_selected(
                                            index.ref_seqs@[i],
                                            index.min_shift as nat,
                                            index.depth as nat,
                                            (spec_seq_start(query.interval) - 1) as u64,
                                            spec_seq_end(
                                                query.interval,
                                                spec_max_seq_position(refs, i),
                                            ) as u64,
                                            ch,
                                        )
                                        &&& spec_byte_range_of_chunk(ch, positions).spec_covers(
                                            None, b)
                                    }))
                            }
                    }
                },
            }
        }
    }
}

/// The positions list covers exactly what the query asks for, with the
/// chunk-end rounding taken from the boundary list `ps`.
pub open spec fn spec_covers_query_with(
    positions: Seq<BytesPosition>,
    query: Query,
    refs: Seq<ReferenceMeta>,
    index: BinningIndex,
    header_end: u64,
    file_size: u64,
    ps: Seq<u64>,
) -> bool {
    forall|c: Option<Class>, b: int| #![all_triggers]
        list_covers(positions, c, b) == spec_query_covers(
            query, refs, index, header_end, file_size, ps, c, b)
}

/// Why a query is rejected before any byte range is computed.
#[derive(Clone, Copy, Debug, PartialEq, Eq, Structural)]
pub enum QueryFault {
    /// The reference name is not in the header or not in the index.
    AbsentReference,
    /// The interval is rejected by the one-based conversion.
    BadInterval,
}

/// The position of the first reference sequence whose name matches.
pub open spec fn spec_first_ref(refs: Seq<ReferenceMeta>, name: Seq<char>) -> int {
    choose|i: int|
        0 <= i < refs.len() && (#[trigger] refs[i]).name@ == name && (forall|j: int|
            0 <= j < i ==> (#[trigger] refs[j]).name@ != name)
}

/// Whether resolving the query reads block boundaries of the index: only
/// a body query for a named reference translates chunks.
pub open spec fn spec_query_uses_boundaries(query: Query) -> bool {
    &&& query.class != Class::Header
    &&& query.reference_name matches Some(n)
    &&& !(query.reference_name->Some_0@ == "*"@ && query.format == Format::Bam)
}

/// The list holds exactly the nonzero compressed offsets the index
/// records, strictly ascending: the concrete block-boundary list chunk
/// ends are rounded to.
pub open spec fn spec_index_boundaries(index: BinningIndex, ps: Seq<u64>) -> bool {
    &&& strictly_sorted(ps)
    &&& (forall|k: int| 0 <= k < ps.len() ==> (#[trigger] ps[k]) != 0 && spec_is_index_offset(
        index, ps[k]))
    &&& (forall|v: u64| v != 0 && (#[trigger] spec_is_index_offset(index, v)) ==> ps.contains(
        v))
}

/// The fault a query runs into before any byte range is computed, if any.
pub open spec fn spec_query_fault(
    query: Query,
    refs: Seq<ReferenceMeta>,
    index: BinningIndex,
) -> Option<QueryFault> {
    if query.class == Class::Header {
        None
    } else {
        match query.reference_name {
            None => None,
            Some(name) => {
                if name@ == "*"@ && query.format == Format::Bam {
                    None
                } else if forall|j: int|
                    0 <= j < refs.len() ==> (#[trigger] refs[j]).name@ != name@ {
                    Some(QueryFault::AbsentReference)
                } else {
                    let i = spec_first_ref(refs, name@);
                    if i >= index.ref_seqs@.len() {
                        Some(QueryFault::AbsentReference)
                    } else if !spec_interval_empty(query.interval) && spec_interval_invalid(
                        query.interval,
                        spec_max_seq_position(refs, i),
                    ) {
                        Some(QueryFault::BadInterval)
                    } else {
                        None
                    }
                }
            },
        }
    }
}

/// The contract of `resolve_bgzf_query`: on success the positions are
/// canonical and cover exactly what the query asks for; a rejected query
/// yields the error of its fault.
pub open spec fn spec_resolve_post(
    r: Result<Vec<BytesPosition>, HtsGetError>,
    query: Query,
    refs: Seq<ReferenceMeta>,
    index: BinningIndex,
    header_end: u64,
    file_size: u64,
) -> bool {
    match r {
        Ok(positions) => {
            &&& spec_query_fault(query, refs, index) is None
            &&& is_canonical(positions@)
            &&& all_nonempty(positions@)
            &&& (query.class == Class::Header ==> positions@ =~= seq![
                BytesPosition { start: None, end: Some(header_end), class: None },
            ])
            &&& exists|ps: Seq<u64>|
                (#[trigger] spec_covers_query_with(
                    positions@, query, refs, index, header_end, file_size, ps))
                    && (spec_query_uses_boundaries(query) ==> spec_index_boundaries(index, ps))
        },
        Err(err) => {
            match spec_query_fault(query, refs, index) {
                Some(QueryFault::AbsentReference) => {
                    &&& query.reference_name matches Some(name)
                    &&& (err matches HtsGetError::NotFound(m) && (m@
                        == "Reference name not found in the header: "@ + name@ || m@
                        == "Reference name not found in the index: "@ + name@))
                },
                Some(QueryFault::BadInterval) => {
                    &&& query.reference_name matches Some(name)
                    &&& (err matches HtsGetError::InvalidRange(m) && m@ == spec_decimal(
                        spec_seq_start(query.interval) as nat) + "-"@ + spec_decimal(
                        spec_seq_end(
                            query.interval,
                            spec_max_seq_position(refs, spec_first_ref(refs, name@)),
                        ) as nat))
                },
                None => false,
            }
        },
    }
}

/// At most one index is the first whose name matches.
pub proof fn lemma_first_match_unique(refs: Seq<ReferenceMeta>, name: Seq<char>, i1: int, i2: int)
    requires
        0 <= i1 < refs.len(),
        refs[i1].name@ == name,
        forall|j: int| 0 <= j < i1 ==> (#[trigger] refs[j]).name@ != name,
        0 <= i2 < refs.len(),
        refs[i2].name@ == name,
        forall|j: int| 0 <= j < i2 ==> (#[trigger] refs[j]).name@ != name,
    ensures
        i1 == i2,
{
}

/// Append all positions of `src` to `dst`, preserving well-formedness and
/// taking the union of the covered bytes.
pub(crate) fn append_positions(dst: &mut Vec<BytesPosition>, src: Vec<BytesPosition>)
    requires
        all_wf(old(dst)@),
        all_wf(src@),
    ensures
        all_wf(final(dst)@),
        forall|c: Option<Class>, b: int| #![all_triggers]
            list_covers(final(dst)@, c, b) == (list_covers(old(dst)@, c, b) || list_covers(
                src@, c, b)),
{
    let ghost pre = dst@;
    let ghost other = src@;
    let n = src.len();
    let mut rest = src;
    let mut i: usize = 0;
    while i < n
        invariant
            n == other.len(),
            rest@ == other,
            i <= n,
            all_wf(dst@),
            all_wf(other),
            forall|c: Option<Class>, b: int| #![all_triggers]
                list_covers(dst@, c, b) == (list_covers(pre, c, b) || list_covers(
                    other.take(i as int), c, b)),
        decreases n - i,
    {
        let p = rest[i];
        let ghost mid = dst@;
        dst.push(p);
        proof {
            assert forall|c: Option<Class>, b: int| #![all_triggers]
                list_covers(dst@, c, b) == (list_covers(pre, c, b) || list_covers(
                    other.take(i + 1), c, b)) by {
                lemma_covers_push(mid, other[i as int], c, b);
                lemma_covers_push(other.take(i as int), other[i as int], c, b);
                assert(other.take(i + 1) =~= other.take(i as int).push(other[i as int]));
            }
        }
        i += 1;
    }
    proof {
        assert(other.take(n as int) =~= other);
    }
}

/// Resolve a query for a BGZF-backed format (BAM, VCF, BCF) to the
/// canonical list of byte positions of the object that the response must
/// cover, given the parsed header (its reference sequences and end
/// offset), the binning index and the object's size.
#[verifier::rlimit(100)]
#[verifier::spinoff_prover]
pub fn resolve_bgzf_query(
    query: &Query,
    refs: &Vec<ReferenceMeta>,
    index: &BinningIndex,
    header_end: u64,
    file_size: u64,
) -> (r: Result<Vec<BytesPosition>, HtsGetError>)
    requires
        index.wf(),
        file_size >= BGZF_EOF_LEN,
        1 <= header_end <= file_size - BGZF_EOF_LEN,
        spec_unmapped_start(*index, header_end) <= file_size - BGZF_EOF_LEN,
    ensures
        spec_resolve_post(r, *query, refs@, *index, header_end, file_size),
{
    let ghost gquery = *query;
    if matches!(query.class, Class::Header) {
        let mut out: Vec<BytesPosition> = Vec::new();
        out.push(header_byte_range(header_end));
        proof {
            assert(is_canonical(out@));
            assert forall|c: Option<Class>, b: int| #![all_triggers]
                list_covers(out@, c, b) == spec_query_covers(
                    gquery, refs@, *index, header_end, file_size, Seq::<u64>::empty(), c, b) by {
                if list_covers(out@, c, b) {
                    let k = choose|k: int|
                        0 <= k < out@.len() && (#[trigger] out@[k]).spec_covers(c, b);
                }
                if spec_query_covers(
                    gquery, refs@, *index, header_end, file_size, Seq::<u64>::empty(), c, b) {
                    assert(out@[0].spec_covers(c, b));
                }
            }
            assert(spec_covers_query_with(
                out@, gquery, refs@, *index, header_end, file_size, Seq::<u64>::empty()));
            assert(all_nonempty(out@)) by {
                assert(out@[0].spec_start() < out@[0].spec_end());
            }
            assert(spec_resolve_post(
                Ok(out), gquery, refs@, *index, header_end, file_size));
        }
        return Ok(out);
    }
    let name_opt = match &query.reference_name {
        Some(n) => Some(n),
        None => None,
    };
    match name_opt {
        None => {
            let out = all_byte_ranges(file_size);
            proof {
                assert(is_canonical(out@));
                assert forall|c: Option<Class>, b: int| #![all_triggers]
                    list_covers(out@, c, b) == spec_query_covers(
                        gquery, refs@, *index, header_end, file_size, Seq::<u64>::empty(), c,
                        b) by {
                    if list_covers(out@, c, b) {
                        let k = choose|k: int|
                            0 <= k < out@.len() && (#[trigger] out@[k]).spec_covers(c, b);
                    }
                    if spec_query_covers(
                        gquery, refs@, *index, header_end, file_size, Seq::<u64>::empty(), c,
                        b) {
                        assert(out@[0].spec_covers(c, b));
                    }
                }
                assert(spec_covers_query_with(
                    out@, gquery, refs@, *index, header_end, file_size, Seq::<u64>::empty()));
                assert(all_nonempty(out@)) by {
                    assert(out@[0].spec_start() < out@[0].spec_end());
                }
                assert(spec_resolve_post(
                    Ok(out), gquery, refs@, *index, header_end, file_size));
            }
            Ok(out)
        },
        Some(name) => {
            let star = "*".to_owned();
            let is_reads = matches!(query.format, Format::Bam);
            if *name == star && is_reads {
                let mut positions: Vec<BytesPosition> = Vec::new();
                positions.push(header_byte_range(header_end));
                let unmapped = unmapped_byte_ranges(index, header_end, file_size);
                proof {
                    assert(all_wf(positions@));
                    assert(all_wf(unmapped@)) by {
                        assert(unmapped@[0].wf());
                    }
                }
                let ghost pre_merge_header = positions@;
                let ghost unm = unmapped@;
                append_positions(&mut positions, unmapped);
                let merged = drop_empty(BytesPosition::merge_all(positions));
                proof {
                    assert forall|c: Option<Class>, b: int| #![all_triggers]
                        list_covers(merged@, c, b) == spec_query_covers(
                            gquery, refs@, *index, header_end, file_size, Seq::<u64>::empty(),
                            c, b) by {
                        assert(list_covers(pre_merge_header, c, b) == pre_merge_header[
                            0].spec_covers(c, b)) by {
                            if list_covers(pre_merge_header, c, b) {
                                let k = choose|k: int|
                                    0 <= k < pre_merge_header.len() && (
                                    #[trigger] pre_merge_header[k]).spec_covers(c, b);
                            }
                        }
                        assert(list_covers(unm, c, b) == unm[0].spec_covers(c, b)) by {
                            if list_covers(unm, c, b) {
                                let k = choose|k: int|
                                    0 <= k < unm.len() && (#[trigger] unm[k]).spec_covers(c, b);
                            }
                        }
                    }
                    assert(spec_covers_query_with(
                        merged@, gquery, refs@, *index, header_end, file_size,
                        Seq::<u64>::empty()));
                    assert(spec_resolve_post(
                        Ok(merged), gquery, refs@, *index, header_end, file_size));
                }
                Ok(merged)
            } else {
                match find_reference(refs, name) {
                    None => {
                        let mut msg = "Reference name not found in the header: ".to_owned();
                        msg.append(name.as_str());
                        let err = HtsGetError::NotFound(msg);
                        proof {
                            assert(spec_query_fault(gquery, refs@, *index) == Some(
                                QueryFault::AbsentReference));
                            assert(spec_resolve_post(
                                Err(err), gquery, refs@, *index, header_end, file_size));
                        }
                        Err(err)
                    },
                    Some(i) => {
                        if i >= index.ref_seqs.len() {
                            let mut msg =
                                "Reference name not found in the index: ".to_owned();
                            msg.append(name.as_str());
                            let err = HtsGetError::NotFound(msg);
                            proof {
                                let wi = choose|wi: int|
                                    0 <= wi < refs@.len() && (#[trigger] refs@[wi]).name@
                                        == name@ && (forall|j: int|
                                        0 <= j < wi ==> (#[trigger] refs@[j]).name@ != name@);
                                lemma_first_match_unique(refs@, name@, wi, i as int);
                                assert(spec_query_fault(gquery, refs@, *index) == Some(
                                    QueryFault::AbsentReference));
                                assert(spec_resolve_post(
                                    Err(err), gquery, refs@, *index, header_end, file_size));
                            }
                            return Err(err);
                        }
                        let max_seq_position = match refs[i].len {
                            Some(l) => l,
                            None => MAX_SEQ_POSITION,
                        };
                        let ps = possible_positions(index);
                        let ranges = match get_byte_ranges_for_reference_sequence_bgzf(
                            &index.ref_seqs[i],
                            index.min_shift,
                            index.depth,
                            query.interval,
                            max_seq_position,
                            &ps,
                        ) {
                            Ok(ranges) => ranges,
                            Err(err) => {
                                proof {
                                    let wi = choose|wi: int|
                                        0 <= wi < refs@.len() && (#[trigger] refs@[wi]).name@
                                            == name@ && (forall|j: int|
                                            0 <= j < wi ==> (#[trigger] refs@[j]).name@
                                                != name@);
                                    lemma_first_match_unique(refs@, name@, wi, i as int);
                                    assert(spec_query_fault(gquery, refs@, *index) == Some(
                                        QueryFault::BadInterval));
                                    assert(spec_resolve_post(
                                        Err(err), gquery, refs@, *index, header_end,
                                        file_size));
                                }
                                return Err(err);
                            },
                        };
                        let mut positions: Vec<BytesPosition> = Vec::new();
                        positions.push(header_byte_range(header_end));
                        let ghost pre_merge_header = positions@;
                        let ghost rgs = ranges@;
                        let ghost pps = ps@;
                        append_positions(&mut positions, ranges);
                        let merged = drop_empty(BytesPosition::merge_all(positions));
                        proof {
                            let ghost gi = i as int;
                            assert(refs@[gi].name@ == name@);
                            let beg = (spec_seq_start(gquery.interval) - 1) as u64;
                            let end = spec_seq_end(
                                gquery.interval, spec_max_seq_position(refs@, gi)) as u64;
                            assert forall|c: Option<Class>, b: int| #![all_triggers]
                                list_covers(merged@, c, b) == spec_query_covers(
                                    gquery, refs@, *index, header_end, file_size, pps, c,
                                    b) by {
                                assert(list_covers(pre_merge_header, c, b) == pre_merge_header[
                                    0].spec_covers(c, b)) by {
                                    if list_covers(pre_merge_header, c, b) {
                                        let k = choose|k: int|
                                            0 <= k < pre_merge_header.len() && (
                                            #[trigger] pre_merge_header[k]).spec_covers(c, b);
                                    }
                                }
                                if list_covers(rgs, c, b) {
                                    let k = choose|k: int|
                                        0 <= k < rgs.len() && (#[trigger] rgs[k]).spec_covers(
                                        c, b);
                                    assert(!spec_interval_empty(gquery.interval));
                                    assert(exists|ch: Chunk|
                                        spec_chunk_selected(
                                            index.ref_seqs@[gi], index.min_shift as nat,
                                            index.depth as nat, beg, end, ch) && rgs[k]
                                            == spec_byte_range_of_chunk(ch, pps));
                                }
                                if spec_query_covers(
                                    gquery, refs@, *index, header_end, file_size, pps, c, b) {
                                    let wi = choose|wi: int|
                                        {
                                            &&& 0 <= wi < refs@.len()
                                            &&& (#[trigger] refs@[wi]).name@ == name@
                                            &&& (forall|j: int|
                                                0 <= j < wi ==> (#[trigger] refs@[j]).name@
                                                    != name@)
                                        };
                                    assert(wi == gi);
                                    if b >= header_end {
                                        let ch = choose|ch: Chunk|
                                            {
                                                &&& #[trigger] spec_chunk_selected(
                                                    index.ref_seqs@[gi],
                                                    index.min_shift as nat,
                                                    index.depth as nat,
                                                    beg,
                                                    end,
                                                    ch,
                                                )
                                                &&& spec_byte_range_of_chunk(
                                                    ch, pps).spec_covers(None, b)
                                            };
                                        assert(rgs.contains(spec_byte_range_of_chunk(ch, pps)));
                                        let k = choose|k: int|
                                            0 <= k < rgs.len() && rgs[k]
                                                == spec_byte_range_of_chunk(ch, pps);
                                        assert(rgs[k].spec_covers(c, b));
                                    } else {
                                        assert(pre_merge_header[0].spec_covers(c, b));
                                    }
                                }
                            }
                            assert(spec_covers_query_with(
                                merged@, gquery, refs@, *index, header_end, file_size, pps));
                            assert(spec_index_boundaries(*index, pps));
                            assert(spec_resolve_post(
                                Ok(merged), gquery, refs@, *index, header_end, file_size));
                        }
                        Ok(merged)
                    },
                }
            }
        },
    }
}

/// The whole contract of a resolved response over the positions it was
/// built from.
pub open spec fn spec_response_for(
    resp: Response,
    positions: Seq<BytesPosition>,
    query: Query,
    refs: Seq<ReferenceMeta>,
    index: BinningIndex,
    header_end: u64,
    file_size: u64,
    url: Seq<char>,
) -> bool {
    &&& is_canonical(positions)
    &&& exists|ps: Seq<u64>| #[trigger]
        spec_covers_query_with(positions, query, refs, index, header_end, file_size, ps)
    &&& crate::response::spec_urls_match(resp.urls@, positions, url, query.class)
    &&& resp.urls@.len() == positions.len() + 1
}

/// Resolve a query for a BGZF-backed format all the way to a response:
/// the canonical positions become ranged urls on the object's url, and
/// the BGZF end-of-file data url with class `body` closes the list.
pub fn resolve_response(
    query: &Query,
    refs: &Vec<ReferenceMeta>,
    index: &BinningIndex,
    header_end: u64,
    file_size: u64,
    url: &str,
) -> (r: Result<Response, HtsGetError>)
    requires
        query.format != Format::Cram,
        index.wf(),
        file_size >= BGZF_EOF_LEN,
        1 <= header_end <= file_size - BGZF_EOF_LEN,
        spec_unmapped_start(*index, header_end) <= file_size - BGZF_EOF_LEN,
    ensures
        match r {
            Ok(resp) => {
                &&& spec_query_fault(*query, refs@, *index) is None
                &&& resp.format == query.format
                &&& resp.urls@.len() >= 1
                &&& resp.urls@.last().url@ == crate::response::spec_bgzf_eof_data_url()
                &&& resp.urls@.last().class == Some(Class::Body)
                &&& resp.urls@.last().headers is None
                &&& (query.class == Class::Header ==> resp.urls@.len() == 2
                    && resp.urls@[0].class == Some(Class::Header))
                &&& exists|positions: Seq<BytesPosition>| #[trigger]
                    spec_response_for(
                        resp, positions, *query, refs@, *index, header_end, file_size, url@)
            },
            Err(err) => {
                match spec_query_fault(*query, refs@, *index) {
                    Some(QueryFault::AbsentReference) => err is NotFound,
                    Some(QueryFault::BadInterval) => err is InvalidRange,
                    None => false,
                }
            },
        },
{
    let positions = resolve_bgzf_query(query, refs, index, header_end, file_size)?;
    let resp = crate::response::positions_to_response(
        query.format,
        query.class,
        &positions,
        url,
    );
    proof {
        assert(spec_response_for(
            resp, positions@, *query, refs@, *index, header_end, file_size, url@));
        if query.class == Class::Header {
            assert(positions@ =~= seq![
                BytesPosition { start: None, end: Some(header_end), class: None },
            ]);
            assert(resp.urls@[0].class == Some(Class::Header));
        }
    }
    Ok(resp)
}

/// Relies on `std::sync::Arc::clone`: the clone refers to the same value.
#[verifier::external_body]
fn arc_clone<S>(a: &Arc<S>) -> (r: Arc<S>)
    ensures
        r == *a,
{
    Arc::clone(a)
}

/// A search service over a shared storage handle: dispatches queries to
/// the engine of their format.
#[derive(Debug)]
pub struct HtsGetFromStorage<S> {
    storage_ref: Arc<S>,
}

impl<S> HtsGetFromStorage<S> {
    /// Wrap a storage backend.
    pub fn new(storage: S) -> (r: Self)
        ensures
            *r.spec_storage() == storage,
    {
        Self { storage_ref: Arc::new(storage) }
    }

    /// A shared handle to the storage backend.
    pub fn storage(&self) -> (r: Arc<S>)
        ensures
            r == *self.spec_storage(),
    {
        arc_clone(&self.storage_ref)
    }

    /// Wrap a storage backend, as `new` does.
    pub fn from(storage: S) -> (r: Result<Self, HtsGetError>)
        ensures
            r matches Ok(h) && *h.spec_storage() == storage,
    {
        Ok(Self::new(storage))
    }

    pub closed spec fn spec_storage(&self) -> Arc<S> {
        self.storage_ref
    }

    /// The formats this service can search.
    pub fn get_supported_formats(&self) -> (r: Vec<Format>)
        ensures
            r@ =~= seq![Format::Bam, Format::Cram, Format::Vcf, Format::Bcf],
    {
        let mut v: Vec<Format> = Vec::new();
        v.push(Format::Bam);
        v.push(Format::Cram);
        v.push(Format::Vcf);
        v.push(Format::Bcf);
        v
    }

    /// Field parameters are not honoured by this resolver.
    pub fn are_field_parameters_effective(&self) -> (r: bool)
        ensures
            !r,
    {
        false
    }

    /// Tag parameters are not honoured by this resolver.
    pub fn are_tag_parameters_effective(&self) -> (r: bool)
        ensures
            !r,
    {
        false
    }
}

/// An empty interval asks for the header bytes alone: a reference-name
/// query whose interval has equal present bounds covers exactly the
/// header prefix, whatever the index holds.
pub proof fn lemma_empty_interval_header_only(
    query: Query,
    refs: Seq<ReferenceMeta>,
    index: BinningIndex,
    header_end: u64,
    file_size: u64,
    ps: Seq<u64>,
    c: Option<Class>,
    b: int,
)
    requires
        query.class != Class::Header,
        query.reference_name matches Some(name) && !(name@ == "*"@ && query.format
            == Format::Bam),
        spec_interval_empty(query.interval),
    ensures
        spec_query_covers(query, refs, index, header_end, file_size, ps, c, b) <==> (c is None
            && 0 <= b < header_end && exists|i: int|
            {
                &&& 0 <= i < refs.len()
                &&& (#[trigger] refs[i]).name@ == query.reference_name->Some_0@
                &&& forall|j: int| 0 <= j < i ==> (#[trigger] refs[j]).name@
                    != query.reference_name->Some_0@
            }),
{
}

/// A query for the unmapped reads covers the header prefix and the region
/// from the last recorded virtual position to the end of the file, its
/// end-of-file marker included.
pub proof fn lemma_unmapped_coverage(
    query: Query,
    refs: Seq<ReferenceMeta>,
    index: BinningIndex,
    header_end: u64,
    file_size: u64,
    ps: Seq<u64>,
    c: Option<Class>,
    b: int,
)
    requires
        query.class != Class::Header,
        query.format == Format::Bam,
        query.reference_name matches Some(name) && name@ == "*"@,
    ensures
        spec_query_covers(query, refs, index, header_end, file_size, ps, c, b) <==> (c is None
            && 0 <= b && (b < header_end || spec_unmapped_start(index, header_end) <= b
            < file_size)),
{
}

/// A reference name that appears nowhere in the header faults the query
/// as absent, never as anything else.
pub proof fn lemma_unknown_reference_not_found(
    query: Query,
    refs: Seq<ReferenceMeta>,
    index: BinningIndex,
)
    requires
        query.class != Class::Header,
        query.reference_name matches Some(name) && !(name@ == "*"@ && query.format
            == Format::Bam),
        forall|j: int| 0 <= j < refs.len() ==> (#[trigger] refs[j]).name@
            != query.reference_name->Some_0@,
    ensures
        spec_query_fault(query, refs, index) == Some(QueryFault::AbsentReference),
{
}

/// An interval lying beyond the reference's length is no fault: only a
/// zero or inverted interval is rejected, so such a query resolves to a
/// response rather than an error.
pub proof fn lemma_beyond_length_not_an_error(
    query: Query,
    refs: Seq<ReferenceMeta>,
    index: BinningIndex,
    i: int,
)
    requires
        query.class != Class::Header,
        query.reference_name matches Some(name) && !(name@ == "*"@ && query.format
            == Format::Bam),
        0 <= i < refs.len(),
        refs[i].name@ == query.reference_name->Some_0@,
        forall|j: int| 0 <= j < i ==> (#[trigger] refs[j]).name@
            != query.reference_name->Some_0@,
        i < index.ref_seqs@.len(),
        crate::search::spec_seq_start(query.interval) >= 1,
        crate::search::spec_seq_start(query.interval) <= crate::search::spec_seq_end(
            query.interval, spec_max_seq_position(refs, i)),
    ensures
        spec_query_fault(query, refs, index) is None,
{
    let name = query.reference_name->Some_0;
    let wi = choose|wi: int|
        0 <= wi < refs.len() && (#[trigger] refs[wi]).name@ == name@ && (forall|j: int|
            0 <= j < wi ==> (#[trigger] refs[j]).name@ != name@);
    lemma_first_match_unique(refs, name@, wi, i);
}

/// The parsed index data a search runs over: the binning index of the
/// BGZF-backed formats, or the CRAI records of a CRAM file.
pub enum IndexData {
    Bgzf(BinningIndex),
    Crai(Vec<crate::cram_search::CraiRecord>),
}

/// Dispatch a query to the engine of its format and assemble the
/// response for the object at `url`, as the search service does once the
/// header and index of the object are read.
pub fn resolve_ticket(
    query: &Query,
    refs: &Vec<ReferenceMeta>,
    data: &IndexData,
    header_end: u64,
    file_size: u64,
    url: &str,
) -> (r: Result<Response, HtsGetError>)
    requires
        match data {
            IndexData::Bgzf(index) => {
                &&& index.wf()
                &&& file_size >= BGZF_EOF_LEN
                &&& 1 <= header_end <= file_size - BGZF_EOF_LEN
                &&& spec_unmapped_start(*index, header_end) <= file_size - BGZF_EOF_LEN
            },
            IndexData::Crai(crai) => {
                &&& file_size >= crate::cram_search::CRAM_EOF_LEN
                &&& 1 <= header_end <= file_size - crate::cram_search::CRAM_EOF_LEN
                &&& refs@.len() <= u32::MAX
                &&& forall|j: int| 0 <= j < crai@.len() ==> (#[trigger] crai@[j]).offset
                    <= file_size - crate::cram_search::CRAM_EOF_LEN
            },
        },
    ensures
        match (query.format, data) {
            (Format::Cram, IndexData::Bgzf(_)) => r matches Err(e) && e is InvalidInput,
            (Format::Cram, IndexData::Crai(_)) => r matches Ok(resp) ==> {
                &&& resp.format == Format::Cram
                &&& (query.class == Class::Header ==> resp.urls@.len() == 1
                    && resp.urls@[0].class == Some(Class::Header))
            },
            (_, IndexData::Crai(_)) => r matches Err(e) && e is InvalidInput,
            (_, IndexData::Bgzf(index)) => resolve_response.ensures(
                (query, refs, index, header_end, file_size, url), r),
        },
{
    let is_cram = matches!(query.format, Format::Cram);
    match data {
        IndexData::Bgzf(index) => {
            if is_cram {
                return Err(HtsGetError::invalid_input(
                    "a CRAM query cannot be resolved over a binning index",
                ));
            }
            resolve_response(query, refs, index, header_end, file_size, url)
        },
        IndexData::Crai(crai) => {
            if !is_cram {
                return Err(HtsGetError::invalid_input(
                    "only a CRAM query can be resolved over a CRAI index",
                ));
            }
            let positions = crate::cram_search::resolve_cram_query(
                query,
                refs,
                crai,
                header_end,
                file_size,
            )?;
            let resp = crate::response::positions_to_response(
                query.format,
                query.class,
                &positions,
                url,
            );
            Ok(resp)
        },
    }
}

} // verus!
