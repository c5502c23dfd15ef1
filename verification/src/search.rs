//! The BGZF search core: selecting the chunks of a binning index that
//! overlap a genomic region, translating them to byte positions, and the
//! whole-file and unmapped-reads paths.

use vstd::prelude::*;
use vstd::arithmetic::power2::pow2;
use crate::index::{
    BinningIndex, Chunk, ReferenceSequenceIndex, spec_bin_range, spec_vp_compressed,
    spec_vp_uncompressed, bin_range, vp_compressed, vp_uncompressed,
};
use crate::storage::BytesPosition;
use crate::types::{HtsGetError, Interval};
use crate::decimal::{spec_decimal, u64_to_string};
use vstd::string::StringExecFns;

verus! {

/// The length of the BGZF end-of-file marker in bytes.
pub const BGZF_EOF_LEN: u64 = 28;

/// A sequence with one element appended contains exactly the old elements
/// and the new one.
proof fn lemma_contains_push<T>(s: Seq<T>, x: T, c: T)
    ensures
        s.push(x).contains(c) == (s.contains(c) || c == x),
{
    if s.push(x).contains(c) {
        let i = choose|i: int| 0 <= i < s.push(x).len() && s.push(x)[i] == c;
        if i < s.len() {
            assert(s[i] == c);
        }
    }
    if s.contains(c) {
        let i = choose|i: int| 0 <= i < s.len() && s[i] == c;
        assert(s.push(x)[i] == c);
    }
    if c == x {
        assert(s.push(x)[s.len() as int] == c);
    }
}

/// The lower bound on virtual positions from the linear index: the entry
/// of the window holding position `beg`, clamped to the last entry.
pub open spec fn spec_min_offset(ref_seq: ReferenceSequenceIndex, min_shift: nat, beg: u64) -> u64 {
    if ref_seq.intervals@.len() == 0 {
        0
    } else {
        let w = beg as int / pow2(min_shift) as int;
        if w < ref_seq.intervals@.len() {
            ref_seq.intervals@[w]
        } else {
            ref_seq.intervals@[ref_seq.intervals@.len() - 1]
        }
    }
}

/// Look up the linear-index lower bound for position `beg`.
pub fn min_offset(ref_seq: &ReferenceSequenceIndex, min_shift: u32, beg: u64) -> (r: u64)
    requires
        min_shift < 64,
    ensures
        r == spec_min_offset(*ref_seq, min_shift as nat, beg),
{
    if ref_seq.intervals.len() == 0 {
        return 0;
    }
    proof {
        vstd::bits::lemma_u64_shr_is_div(beg, min_shift as u64);
        vstd::arithmetic::power2::lemma_pow2_pos(min_shift as nat);
    }
    let w: u64 = beg >> (min_shift as u64);
    let n = ref_seq.intervals.len();
    if w < n as u64 {
        ref_seq.intervals[w as usize]
    } else {
        ref_seq.intervals[n - 1]
    }
}

/// Whether bin `id` overlaps the zero-based half-open region `[beg, end)`.
pub open spec fn spec_bin_overlaps(id: u32, min_shift: nat, depth: nat, beg: u64, end: u64) -> bool {
    match spec_bin_range(id as nat, min_shift, depth) {
        Some((b, e)) => b < end && (beg as int) < e,
        None => false,
    }
}

/// Whether chunk `c` is selected for the region `[beg, end)`: it lies in a
/// bin that overlaps the region and its end lies beyond the linear-index
/// lower bound.
pub open spec fn spec_chunk_selected(
    ref_seq: ReferenceSequenceIndex,
    min_shift: nat,
    depth: nat,
    beg: u64,
    end: u64,
    c: Chunk,
) -> bool {
    exists|i: int|
        {
            &&& 0 <= i < ref_seq.bins@.len()
            &&& spec_bin_overlaps((#[trigger] ref_seq.bins@[i]).id, min_shift, depth, beg, end)
            &&& ref_seq.bins@[i].chunks@.contains(c)
            &&& c.end > spec_min_offset(ref_seq, min_shift, beg)
        }
}

/// Chunk `c` is selected among the first `upto` bins.
spec fn spec_chunk_selected_upto(
    ref_seq: ReferenceSequenceIndex,
    min_shift: nat,
    depth: nat,
    beg: u64,
    end: u64,
    c: Chunk,
    upto: int,
) -> bool {
    exists|i: int|
        {
            &&& 0 <= i < upto
            &&& i < ref_seq.bins@.len()
            &&& spec_bin_overlaps((#[trigger] ref_seq.bins@[i]).id, min_shift, depth, beg, end)
            &&& ref_seq.bins@[i].chunks@.contains(c)
            &&& c.end > spec_min_offset(ref_seq, min_shift, beg)
        }
}

/// Collect the union of chunks of all bins overlapping `[beg, end)`,
/// pruned by the linear index.
pub fn chunks_for_region(
    ref_seq: &ReferenceSequenceIndex,
    min_shift: u32,
    depth: u32,
    beg: u64,
    end: u64,
) -> (r: Vec<Chunk>)
    requires
        1 <= min_shift,
        1 <= depth,
        min_shift + 3 * depth <= 48,
        ref_seq.wf(),
    ensures
        forall|c: Chunk| #[trigger]
            r@.contains(c) <==> spec_chunk_selected(
                *ref_seq, min_shift as nat, depth as nat, beg, end, c),
        forall|k: int| 0 <= k < r@.len() ==> (#[trigger] r@[k]).wf(),
{
    let min_off = min_offset(ref_seq, min_shift, beg);
    let mut out: Vec<Chunk> = Vec::new();
    let nbins = ref_seq.bins.len();
    let mut i: usize = 0;
    while i < nbins
        invariant
            1 <= min_shift && 1 <= depth && min_shift + 3 * depth <= 48,
            ref_seq.wf(),
            min_off == spec_min_offset(*ref_seq, min_shift as nat, beg),
            nbins == ref_seq.bins@.len(),
            i <= nbins,
            forall|c: Chunk| #[trigger]
                out@.contains(c) <==> spec_chunk_selected_upto(
                    *ref_seq, min_shift as nat, depth as nat, beg, end, c, i as int),
            forall|k: int| 0 <= k < out@.len() ==> (#[trigger] out@[k]).wf(),
        decreases nbins - i,
    {
        let overlaps = match bin_range(ref_seq.bins[i].id, min_shift, depth) {
            Some((b, e)) => b < end && beg < e,
            None => false,
        };
        assert(overlaps == spec_bin_overlaps(
            ref_seq.bins@[i as int].id, min_shift as nat, depth as nat, beg, end));
        if overlaps {
            let nchunks = ref_seq.bins[i].chunks.len();
            let mut j: usize = 0;
            while j < nchunks
                invariant
                    1 <= min_shift && 1 <= depth && min_shift + 3 * depth <= 48,
                    ref_seq.wf(),
                    min_off == spec_min_offset(*ref_seq, min_shift as nat, beg),
                    i < ref_seq.bins@.len(),
                    spec_bin_overlaps(
                        ref_seq.bins@[i as int].id, min_shift as nat, depth as nat, beg, end),
                    nchunks == ref_seq.bins@[i as int].chunks@.len(),
                    j <= nchunks,
                    forall|c: Chunk| #[trigger]
                        out@.contains(c) <==> (spec_chunk_selected_upto(
                            *ref_seq, min_shift as nat, depth as nat, beg, end, c, i as int)
                            || (exists|cj: int|
                            0 <= cj < j && (#[trigger] ref_seq.bins@[i as int].chunks@[cj]) == c
                                && c.end > min_off)),
                    forall|k: int| 0 <= k < out@.len() ==> (#[trigger] out@[k]).wf(),
                decreases nchunks - j,
            {
                let c = ref_seq.bins[i].chunks[j];
                if c.end > min_off {
                    let ghost pre = out@;
                    out.push(c);
                    proof {
                        assert forall|cc: Chunk| #[trigger]
                            out@.contains(cc) <==> (spec_chunk_selected_upto(
                                *ref_seq, min_shift as nat, depth as nat, beg, end, cc,
                                i as int) || (exists|cj: int|
                                0 <= cj < j + 1 && (
                                #[trigger] ref_seq.bins@[i as int].chunks@[cj]) == cc
                                    && cc.end > min_off)) by {
                            lemma_contains_push(pre, c, cc);
                            if cc == c {
                                assert(ref_seq.bins@[i as int].chunks@[j as int] == cc);
                            }
                        }
                    }
                }
                j += 1;
            }
            proof {
                assert forall|cc: Chunk| #[trigger]
                    out@.contains(cc) <==> spec_chunk_selected_upto(
                        *ref_seq, min_shift as nat, depth as nat, beg, end, cc, i + 1) by {
                    if out@.contains(cc) {
                        if !spec_chunk_selected_upto(
                            *ref_seq, min_shift as nat, depth as nat, beg, end, cc, i as int) {
                            let cj = choose|cj: int|
                                0 <= cj < nchunks && (
                                #[trigger] ref_seq.bins@[i as int].chunks@[cj]) == cc
                                    && cc.end > min_off;
                            assert(ref_seq.bins@[i as int].chunks@.contains(cc));
                        }
                    }
                    if spec_chunk_selected_upto(
                        *ref_seq, min_shift as nat, depth as nat, beg, end, cc, i + 1) {
                        let bi = choose|bi: int|
                            {
                                &&& 0 <= bi < i + 1
                                &&& bi < ref_seq.bins@.len()
                                &&& spec_bin_overlaps(
                                    (#[trigger] ref_seq.bins@[bi]).id, min_shift as nat,
                                    depth as nat, beg, end)
                                &&& ref_seq.bins@[bi].chunks@.contains(cc)
                                &&& cc.end > spec_min_offset(*ref_seq, min_shift as nat, beg)
                            };
                        if bi == i {
                            let cj = choose|cj: int|
                                0 <= cj < ref_seq.bins@[bi].chunks@.len() && ref_seq.bins@[
                                    bi].chunks@[cj] == cc;
                        }
                    }
                }
            }
        } else {
            proof {
                assert forall|cc: Chunk| #[trigger]
                    out@.contains(cc) <==> spec_chunk_selected_upto(
                        *ref_seq, min_shift as nat, depth as nat, beg, end, cc, i + 1) by {}
            }
        }
        i += 1;
    }
    out
}

/// A virtual-position offset recorded in one reference sequence of the
/// index: a chunk boundary, a linear-index entry, or metadata.
pub open spec fn spec_is_ref_offset(ref_seq: ReferenceSequenceIndex, v: u64) -> bool {
    ||| exists|i: int, j: int|
        {
            &&& 0 <= i < ref_seq.bins@.len()
            &&& 0 <= j < ref_seq.bins@[i].chunks@.len()
            &&& (spec_vp_compressed((#[trigger] ref_seq.bins@[i].chunks@[j]).start) == v
                || spec_vp_compressed(ref_seq.bins@[i].chunks@[j].end) == v)
        }
    ||| exists|i: int|
        0 <= i < ref_seq.intervals@.len() && spec_vp_compressed(#[trigger] ref_seq.intervals@[i])
            == v
    ||| (ref_seq.metadata matches Some(m) && (spec_vp_compressed(m.start_vp) == v
        || spec_vp_compressed(m.end_vp) == v))
}

/// A compressed offset recorded anywhere in the index.
pub open spec fn spec_is_index_offset(index: BinningIndex, v: u64) -> bool {
    exists|r: int|
        0 <= r < index.ref_seqs@.len() && spec_is_ref_offset(#[trigger] index.ref_seqs@[r], v)
}

/// Strictly ascending.
pub open spec fn strictly_sorted(s: Seq<u64>) -> bool {
    forall|i: int, j: int| 0 <= i < j < s.len() ==> s[i] < s[j]
}

/// The first position whose value is at least `x`.
fn find_ge_pos(v: &Vec<u64>, x: u64) -> (j: usize)
    requires
        strictly_sorted(v@),
    ensures
        j <= v@.len(),
        forall|k: int| 0 <= k < j ==> v@[k] < x,
        j < v@.len() ==> v@[j as int] >= x,
{
    let n = v.len();
    let mut j: usize = 0;
    while j < n
        invariant
            strictly_sorted(v@),
            n == v@.len(),
            j <= n,
            forall|k: int| 0 <= k < j ==> v@[k] < x,
        decreases n - j,
    {
        if v[j] >= x {
            return j;
        }
        j += 1;
    }
    j
}

/// Insert `x` into a strictly sorted vector, keeping it strictly sorted;
/// a value already present is not duplicated.
pub fn push_sorted_unique(v: &mut Vec<u64>, x: u64)
    requires
        strictly_sorted(old(v)@),
    ensures
        strictly_sorted(final(v)@),
        forall|y: u64| #[trigger] final(v)@.contains(y) == (old(v)@.contains(y) || y == x),
{
    let ghost pre = v@;
    let n = v.len();
    let j = find_ge_pos(v, x);
    if j < n && v[j] == x {
        proof {
            assert(pre.contains(pre[j as int]));
            assert forall|y: u64| #[trigger] v@.contains(y) == (pre.contains(y) || y == x) by {}
        }
        return ;
    }
    proof {
        if j < n {
            assert(pre[j as int] >= x && pre[j as int] != x);
        }
    }
    v.insert(j, x);
    proof {
        assert(strictly_sorted(v@)) by {
            assert forall|a: int, b: int| 0 <= a < b < v@.len() implies v@[a] < v@[b] by {
                if a < j && b == j {
                } else if a == j && b > j {
                    assert(v@[b] == pre[b - 1]);
                    if j < pre.len() {
                        assert(pre[j as int] > x);
                        if b - 1 > j {
                            assert(pre[j as int] < pre[b - 1]);
                        }
                    }
                } else if a < j && b > j {
                    assert(v@[a] == pre[a] && v@[b] == pre[b - 1]);
                } else if a > j && b > j {
                    assert(v@[a] == pre[a - 1] && v@[b] == pre[b - 1]);
                }
            }
        }
        assert forall|y: u64| #[trigger] v@.contains(y) == (pre.contains(y) || y == x) by {
            assert(v@ =~= pre.take(j as int).push(x) + pre.skip(j as int));
            if v@.contains(y) {
                let k = choose|k: int| 0 <= k < v@.len() && v@[k] == y;
                if k < j {
                    assert(pre[k] == y);
                } else if k > j {
                    assert(pre[k - 1] == y);
                }
            }
            if pre.contains(y) {
                let k = choose|k: int| 0 <= k < pre.len() && pre[k] == y;
                if k < j {
                    assert(v@[k] == y);
                } else {
                    assert(v@[k + 1] == y);
                }
            }
            if y == x {
                assert(v@[j as int] == y);
            }
        }
    }
}

/// The offsets of the chunks of the first `bi` bins, and of the first
/// `cj` chunks of bin `bi`.
spec fn spec_chunk_offsets_upto(
    ref_seq: ReferenceSequenceIndex,
    bi: int,
    cj: int,
    y: u64,
) -> bool {
    exists|i: int, j: int|
        {
            &&& 0 <= i < ref_seq.bins@.len()
            &&& 0 <= j < ref_seq.bins@[i].chunks@.len()
            &&& (i < bi || (i == bi && j < cj))
            &&& (spec_vp_compressed((#[trigger] ref_seq.bins@[i].chunks@[j]).start) == y
                || spec_vp_compressed(ref_seq.bins@[i].chunks@[j].end) == y)
        }
}

/// The offsets of the chunks of all bins of the reference sequence.
spec fn spec_chunk_offsets(ref_seq: ReferenceSequenceIndex, y: u64) -> bool {
    spec_chunk_offsets_upto(ref_seq, ref_seq.bins@.len() as int, 0, y)
}

/// The offsets of the first `n` linear-index entries.
spec fn spec_interval_offsets_upto(ref_seq: ReferenceSequenceIndex, n: int, y: u64) -> bool {
    exists|i: int|
        0 <= i < n && i < ref_seq.intervals@.len() && spec_vp_compressed(
            #[trigger] ref_seq.intervals@[i]) == y
}

/// Add every nonzero compressed offset recorded in one reference sequence
/// to the sorted offset list.
fn collect_ref_offsets(ref_seq: &ReferenceSequenceIndex, out: &mut Vec<u64>)
    requires
        strictly_sorted(old(out)@),
    ensures
        strictly_sorted(final(out)@),
        forall|y: u64| #[trigger]
            final(out)@.contains(y) == (old(out)@.contains(y) || (y != 0 && spec_is_ref_offset(
                *ref_seq, y))),
{
    let ghost g0 = old(out)@;
    let nbins = ref_seq.bins.len();
    let mut i: usize = 0;
    while i < nbins
        invariant
            strictly_sorted(out@),
            nbins == ref_seq.bins@.len(),
            i <= nbins,
            forall|y: u64| #[trigger]
                out@.contains(y) == (g0.contains(y) || (y != 0 && spec_chunk_offsets_upto(
                    *ref_seq, i as int, 0, y))),
        decreases nbins - i,
    {
        let nchunks = ref_seq.bins[i].chunks.len();
        let mut j: usize = 0;
        while j < nchunks
            invariant
                strictly_sorted(out@),
                i < ref_seq.bins@.len(),
                nchunks == ref_seq.bins@[i as int].chunks@.len(),
                j <= nchunks,
                forall|y: u64| #[trigger]
                    out@.contains(y) == (g0.contains(y) || (y != 0 && spec_chunk_offsets_upto(
                        *ref_seq, i as int, j as int, y))),
            decreases nchunks - j,
        {
            let c = ref_seq.bins[i].chunks[j];
            let cs = vp_compressed(c.start);
            let ce = vp_compressed(c.end);
            let ghost pre = out@;
            if cs != 0 {
                push_sorted_unique(out, cs);
            }
            if ce != 0 {
                push_sorted_unique(out, ce);
            }
            proof {
                assert forall|y: u64| #[trigger]
                    out@.contains(y) == (g0.contains(y) || (y != 0 && spec_chunk_offsets_upto(
                        *ref_seq, i as int, j + 1, y))) by {
                    if out@.contains(y) && !pre.contains(y) {
                        assert(y == cs || y == ce);
                        assert(spec_chunk_offsets_upto(*ref_seq, i as int, j + 1, y));
                    }
                    if y != 0 && spec_chunk_offsets_upto(*ref_seq, i as int, j + 1, y) {
                        let (bi, cj) = choose|bi: int, cj: int|
                            {
                                &&& 0 <= bi < ref_seq.bins@.len()
                                &&& 0 <= cj < ref_seq.bins@[bi].chunks@.len()
                                &&& (bi < i || (bi == i && cj < j + 1))
                                &&& (spec_vp_compressed((
                                #[trigger] ref_seq.bins@[bi].chunks@[cj]).start) == y
                                    || spec_vp_compressed(ref_seq.bins@[bi].chunks@[cj].end)
                                    == y)
                            };
                        if bi == i && cj == j {
                            assert(y == cs || y == ce);
                            assert(out@.contains(y));
                        } else {
                            assert(spec_chunk_offsets_upto(*ref_seq, i as int, j as int, y));
                            assert(pre.contains(y));
                            assert(out@.contains(y));
                        }
                    }
                }
            }
            j += 1;
        }
        proof {
            assert forall|y: u64| #[trigger]
                out@.contains(y) == (g0.contains(y) || (y != 0 && spec_chunk_offsets_upto(
                    *ref_seq, i + 1, 0, y))) by {
                if y != 0 && spec_chunk_offsets_upto(*ref_seq, i + 1, 0, y) {
                    assert(spec_chunk_offsets_upto(*ref_seq, i as int, nchunks as int, y));
                }
                if y != 0 && spec_chunk_offsets_upto(*ref_seq, i as int, nchunks as int, y) {
                    assert(spec_chunk_offsets_upto(*ref_seq, i + 1, 0, y));
                }
            }
        }
        i += 1;
    }
    let nints = ref_seq.intervals.len();
    let mut j: usize = 0;
    while j < nints
        invariant
            strictly_sorted(out@),
            nints == ref_seq.intervals@.len(),
            j <= nints,
            forall|y: u64| #[trigger]
                out@.contains(y) == (g0.contains(y) || (y != 0 && spec_chunk_offsets(
                    *ref_seq, y)) || (y != 0 && spec_interval_offsets_upto(
                    *ref_seq, j as int, y))),
        decreases nints - j,
    {
        let v = vp_compressed(ref_seq.intervals[j]);
        let ghost pre = out@;
        if v != 0 {
            push_sorted_unique(out, v);
        }
        proof {
            assert forall|y: u64| #[trigger]
                out@.contains(y) == (g0.contains(y) || (y != 0 && spec_chunk_offsets(
                    *ref_seq, y)) || (y != 0 && spec_interval_offsets_upto(
                    *ref_seq, j + 1, y))) by {
                if out@.contains(y) && !pre.contains(y) {
                    assert(y == v);
                    assert(spec_vp_compressed(ref_seq.intervals@[j as int]) == y);
                    assert(spec_interval_offsets_upto(*ref_seq, j + 1, y));
                }
                if y != 0 && spec_interval_offsets_upto(*ref_seq, j + 1, y) {
                    let idx = choose|idx: int|
                        0 <= idx < j + 1 && idx < ref_seq.intervals@.len()
                            && spec_vp_compressed(#[trigger] ref_seq.intervals@[idx]) == y;
                    if idx == j {
                        assert(y == v);
                        assert(out@.contains(y));
                    } else {
                        assert(spec_interval_offsets_upto(*ref_seq, j as int, y));
                        assert(pre.contains(y));
                        assert(out@.contains(y));
                    }
                }
            }
        }
        j += 1;
    }
    let ghost pre_meta = out@;
    match ref_seq.metadata {
        Some(m) => {
            let ms = vp_compressed(m.start_vp);
            let me = vp_compressed(m.end_vp);
            if ms != 0 {
                push_sorted_unique(out, ms);
            }
            if me != 0 {
                push_sorted_unique(out, me);
            }
        },
        None => (),
    }
    proof {
        assert forall|y: u64| #[trigger]
            out@.contains(y) == (g0.contains(y) || (y != 0 && spec_is_ref_offset(
                *ref_seq, y))) by {
            if out@.contains(y) {
                if !pre_meta.contains(y) {
                    assert(ref_seq.metadata matches Some(m) && (spec_vp_compressed(m.start_vp)
                        == y || spec_vp_compressed(m.end_vp) == y));
                } else {
                    if !g0.contains(y) {
                        if spec_chunk_offsets(*ref_seq, y) {
                            assert(spec_is_ref_offset(*ref_seq, y));
                        } else {
                            assert(spec_interval_offsets_upto(
                                *ref_seq, ref_seq.intervals@.len() as int, y));
                        }
                    }
                }
            }
            if y != 0 && spec_is_ref_offset(*ref_seq, y) && !g0.contains(y) {
                if spec_chunk_offsets(*ref_seq, y) {
                    assert(pre_meta.contains(y));
                } else if spec_interval_offsets_upto(
                    *ref_seq, ref_seq.intervals@.len() as int, y) {
                    assert(pre_meta.contains(y));
                } else {
                    assert(ref_seq.metadata matches Some(m) && (spec_vp_compressed(m.start_vp)
                        == y || spec_vp_compressed(m.end_vp) == y));
                    assert(out@.contains(y));
                }
            }
        }
    }
}

/// All compressed offsets mentioned by the index, without zero, strictly
/// ascending: exactly the block boundaries the index vouches for.
pub fn possible_positions(index: &BinningIndex) -> (r: Vec<u64>)
    ensures
        strictly_sorted(r@),
        forall|k: int| 0 <= k < r@.len() ==> (#[trigger] r@[k]) != 0 && spec_is_index_offset(
            *index, r@[k]),
        forall|v: u64| v != 0 && (#[trigger] spec_is_index_offset(*index, v)) ==> r@.contains(
            v),
{
    let mut out: Vec<u64> = Vec::new();
    let nrefs = index.ref_seqs.len();
    let mut r: usize = 0;
    while r < nrefs
        invariant
            nrefs == index.ref_seqs@.len(),
            r <= nrefs,
            strictly_sorted(out@),
            forall|y: u64| #[trigger]
                out@.contains(y) == (y != 0 && exists|rr: int|
                    0 <= rr < r && spec_is_ref_offset(#[trigger] index.ref_seqs@[rr], y)),
        decreases nrefs - r,
    {
        let ghost pre = out@;
        collect_ref_offsets(&index.ref_seqs[r], &mut out);
        proof {
            assert forall|y: u64| #[trigger]
                out@.contains(y) == (y != 0 && exists|rr: int|
                    0 <= rr < r + 1 && spec_is_ref_offset(#[trigger] index.ref_seqs@[rr],
                    y)) by {
                if out@.contains(y) {
                    if pre.contains(y) {
                        let rr = choose|rr: int|
                            0 <= rr < r && spec_is_ref_offset(#[trigger] index.ref_seqs@[rr],
                            y);
                    } else {
                        assert(spec_is_ref_offset(index.ref_seqs@[r as int], y));
                    }
                }
                if y != 0 && exists|rr: int|
                    0 <= rr < r + 1 && spec_is_ref_offset(#[trigger] index.ref_seqs@[rr], y) {
                    let rr = choose|rr: int|
                        0 <= rr < r + 1 && spec_is_ref_offset(#[trigger] index.ref_seqs@[rr],
                        y);
                    if rr < r {
                        assert(pre.contains(y));
                    }
                }
            }
        }
        r += 1;
    }
    proof {
        assert forall|k: int| 0 <= k < out@.len() implies (#[trigger] out@[k]) != 0
            && spec_is_index_offset(*index, out@[k]) by {
            assert(out@.contains(out@[k]));
        }
        assert forall|v: u64| v != 0 && (#[trigger] spec_is_index_offset(*index, v)) implies
            out@.contains(v) by {
            let rr = choose|rr: int|
                0 <= rr < index.ref_seqs@.len() && spec_is_ref_offset(
                    #[trigger] index.ref_seqs@[rr], v);
        }
    }
    out
}

/// The first offset of the list that lies beyond `k`, in list order; one
/// whole block further when the list has none.
pub open spec fn spec_first_greater(s: Seq<u64>, k: u64) -> int
    decreases s.len(),
{
    if s.len() == 0 {
        k + 65536
    } else if s[0] > k {
        s[0] as int
    } else {
        spec_first_greater(s.drop_first(), k)
    }
}

/// The chosen boundary always lies beyond `k`.
pub proof fn lemma_first_greater_gt(s: Seq<u64>, k: u64)
    ensures
        spec_first_greater(s, k) > k,
    decreases s.len(),
{
    if s.len() != 0 && s[0] <= k {
        lemma_first_greater_gt(s.drop_first(), k);
    }
}

/// Find the first offset beyond `k`.
pub fn first_greater(positions: &Vec<u64>, k: u64) -> (r: u64)
    requires
        k <= 0xFFFF_FFFF_FFFF,
    ensures
        r as int == spec_first_greater(positions@, k),
{
    let n = positions.len();
    let mut i: usize = 0;
    proof {
        assert(positions@.skip(0) =~= positions@);
    }
    while i < n
        invariant
            n == positions@.len(),
            i <= n,
            k <= 0xFFFF_FFFF_FFFF,
            spec_first_greater(positions@, k) == spec_first_greater(positions@.skip(i as int), k),
        decreases n - i,
    {
        proof {
            assert(positions@.skip(i as int)[0] == positions@[i as int]);
        }
        if positions[i] > k {
            return positions[i];
        }
        proof {
            assert(positions@.skip(i as int).drop_first() =~= positions@.skip(i + 1));
        }
        i += 1;
    }
    proof {
        assert(positions@.skip(n as int).len() == 0);
    }
    k + 65536
}

/// The byte position a chunk is translated to: from the start of the
/// block of its first record to the first known block boundary past the
/// block of its last record.
pub open spec fn spec_byte_range_of_chunk(c: Chunk, positions: Seq<u64>) -> BytesPosition {
    BytesPosition {
        start: Some(spec_vp_compressed(c.start)),
        end: Some(
            if spec_vp_uncompressed(c.end) == 0 {
                spec_vp_compressed(c.end)
            } else {
                spec_first_greater(positions, spec_vp_compressed(c.end)) as u64
            },
        ),
        class: None,
    }
}

/// Translate one chunk to a byte position.
fn byte_range_of_chunk(c: &Chunk, positions: &Vec<u64>) -> (r: BytesPosition)
    requires
        c.wf(),
    ensures
        r == spec_byte_range_of_chunk(*c, positions@),
        r.wf(),
{
    proof {
        assert(c.end / 65536 <= 0xFFFF_FFFF_FFFF) by (nonlinear_arith);
        assert(c.start / 65536 <= c.end / 65536) by {
            vstd::arithmetic::div_mod::lemma_div_is_ordered(c.start as int, c.end as int, 65536);
        }
        lemma_first_greater_gt(positions@, spec_vp_compressed(c.end));
    }
    let start = vp_compressed(c.start);
    let end = if vp_uncompressed(c.end) == 0 {
        vp_compressed(c.end)
    } else {
        first_greater(positions, vp_compressed(c.end))
    };
    BytesPosition { start: Some(start), end: Some(end), class: None }
}

/// The effective one-based start of a query interval; an absent start
/// means the first position.
pub open spec fn spec_seq_start(interval: Interval) -> u32 {
    match interval.start {
        Some(s) => s,
        None => 1,
    }
}

/// The effective one-based end of a query interval; an absent end means
/// the reference's greatest position.
pub open spec fn spec_seq_end(interval: Interval, max_seq_position: u32) -> u32 {
    match interval.end {
        Some(e) => e,
        None => max_seq_position,
    }
}

/// A half-open query interval with equal present bounds selects nothing.
pub open spec fn spec_interval_empty(interval: Interval) -> bool {
    interval.start is Some && interval.start == interval.end
}

/// The bounds reject the query when the start precedes the first one-based
/// position or the interval is inverted.
pub open spec fn spec_interval_invalid(interval: Interval, max_seq_position: u32) -> bool {
    spec_seq_start(interval) == 0 || spec_seq_start(interval) > spec_seq_end(
        interval, max_seq_position)
}

/// What a successful search of one reference sequence returns: nothing for
/// an empty interval; otherwise exactly the translations of the selected
/// chunks, all well-formed and untagged.
pub open spec fn spec_ref_search_ok(
    ref_seq: ReferenceSequenceIndex,
    min_shift: nat,
    depth: nat,
    interval: Interval,
    max_seq_position: u32,
    positions: Seq<u64>,
    ranges: Seq<BytesPosition>,
) -> bool {
    &&& (spec_interval_empty(interval) ==> ranges.len() == 0)
    &&& (!spec_interval_empty(interval) ==> {
        let beg = (spec_seq_start(interval) - 1) as u64;
        let end = spec_seq_end(interval, max_seq_position) as u64;
        &&& !spec_interval_invalid(interval, max_seq_position)
        &&& forall|k: int|
            0 <= k < ranges.len() ==> exists|c: Chunk|
                spec_chunk_selected(ref_seq, min_shift, depth, beg, end, c) && (
                #[trigger] ranges[k]) == spec_byte_range_of_chunk(c, positions)
        &&& forall|c: Chunk|
            (#[trigger] spec_chunk_selected(ref_seq, min_shift, depth, beg, end, c))
                ==> ranges.contains(spec_byte_range_of_chunk(c, positions))
        &&& ((forall|c: Chunk|
            !(#[trigger] spec_chunk_selected(ref_seq, min_shift, depth, beg, end, c)))
            ==> ranges.len() == 0)
    })
    &&& forall|k: int| 0 <= k < ranges.len() ==> (#[trigger] ranges[k]).wf() && ranges[k].class
        is None
}

/// The byte ranges of the records of one reference sequence that overlap
/// the query interval: the chunks of the overlapping bins, pruned by the
/// linear index and translated block-wise to byte positions.
///
/// An empty interval selects nothing; an interval beyond the reference's
/// length is not an error and selects what the bins hold there, if
/// anything.
#[verifier::rlimit(60)]
#[verifier::spinoff_prover]
pub fn get_byte_ranges_for_reference_sequence_bgzf(
    ref_seq: &ReferenceSequenceIndex,
    min_shift: u32,
    depth: u32,
    interval: Interval,
    max_seq_position: u32,
    positions: &Vec<u64>,
) -> (r: Result<Vec<BytesPosition>, HtsGetError>)
    requires
        1 <= min_shift,
        1 <= depth,
        min_shift + 3 * depth <= 48,
        ref_seq.wf(),
    ensures
        match r {
            Ok(ranges) => spec_ref_search_ok(
                *ref_seq, min_shift as nat, depth as nat, interval, max_seq_position, positions@,
                ranges@,
            ),
            Err(err) => {
                &&& !spec_interval_empty(interval)
                &&& spec_interval_invalid(interval, max_seq_position)
                &&& err matches HtsGetError::InvalidRange(m) && m@ == spec_decimal(
                    spec_seq_start(interval) as nat) + "-"@ + spec_decimal(
                    spec_seq_end(interval, max_seq_position) as nat)
            },
        },
{
    match (interval.start, interval.end) {
        (Some(s), Some(e)) if s == e => {
            let empty_ranges: Vec<BytesPosition> = Vec::new();
            proof {
                assert(spec_ref_search_ok(
                    *ref_seq, min_shift as nat, depth as nat, interval, max_seq_position,
                    positions@, empty_ranges@));
            }
            return Ok(empty_ranges);
        },
        _ => (),
    }
    let seq_start: u32 = match interval.start {
        Some(s) => s,
        None => 1,
    };
    let seq_end: u32 = match interval.end {
        Some(e) => e,
        None => max_seq_position,
    };
    if seq_start == 0 || seq_start > seq_end {
        let mut msg = u64_to_string(seq_start as u64);
        msg.append("-");
        msg.append(u64_to_string(seq_end as u64).as_str());
        let err = HtsGetError::InvalidRange(msg);
        proof {
            assert(err matches HtsGetError::InvalidRange(m) && m@ == spec_decimal(
                spec_seq_start(interval) as nat) + "-"@ + spec_decimal(
                spec_seq_end(interval, max_seq_position) as nat));
        }
        return Err(err);
    }
    let beg: u64 = (seq_start - 1) as u64;
    let end: u64 = seq_end as u64;
    let chunks = chunks_for_region(ref_seq, min_shift, depth, beg, end);
    let mut ranges: Vec<BytesPosition> = Vec::new();
    let n = chunks.len();
    let mut i: usize = 0;
    while i < n
        invariant
            n == chunks@.len(),
            i <= n,
            forall|k: int| 0 <= k < chunks@.len() ==> (#[trigger] chunks@[k]).wf(),
            ranges@.len() == i,
            forall|k: int| 0 <= k < i ==> (#[trigger] ranges@[k]) == spec_byte_range_of_chunk(
                chunks@[k], positions@),
            forall|k: int| 0 <= k < i ==> (#[trigger] ranges@[k]).wf() && ranges@[k].class
                is None,
        decreases n - i,
    {
        let bp = byte_range_of_chunk(&chunks[i], positions);
        ranges.push(bp);
        i += 1;
    }
    proof {
        let beg64 = beg;
        let end64 = end;
        assert forall|k: int| 0 <= k < ranges@.len() implies exists|c: Chunk|
            spec_chunk_selected(*ref_seq, min_shift as nat, depth as nat, beg64, end64, c) && (
            #[trigger] ranges@[k]) == spec_byte_range_of_chunk(c, positions@) by {
            assert(chunks@.contains(chunks@[k]));
            assert(spec_chunk_selected(
                *ref_seq, min_shift as nat, depth as nat, beg64, end64, chunks@[k]));
        }
        assert forall|c: Chunk|
            (#[trigger] spec_chunk_selected(
                *ref_seq, min_shift as nat, depth as nat, beg64, end64, c)) implies
            ranges@.contains(spec_byte_range_of_chunk(c, positions@)) by {
            assert(chunks@.contains(c));
            let k = choose|k: int| 0 <= k < chunks@.len() && chunks@[k] == c;
            assert(ranges@[k] == spec_byte_range_of_chunk(c, positions@));
        }
        if ranges@.len() > 0 {
            assert(chunks@.contains(chunks@[0]));
            assert(spec_chunk_selected(
                *ref_seq, min_shift as nat, depth as nat, beg64, end64, chunks@[0]));
        }
        assert(spec_ref_search_ok(
            *ref_seq, min_shift as nat, depth as nat, interval, max_seq_position, positions@,
            ranges@));
    }
    Ok(ranges)
}

/// The last linear-index entry of the reference sequence furthest into the
/// file, if any reference sequence has one.
pub open spec fn spec_last_interval(refs: Seq<ReferenceSequenceIndex>) -> Option<u64>
    decreases refs.len(),
{
    if refs.len() == 0 {
        None
    } else if refs.last().intervals@.len() > 0 {
        Some(refs.last().intervals@.last())
    } else {
        spec_last_interval(refs.drop_last())
    }
}

/// The byte range of the reference-sequence-less records: from the block
/// of the greatest linear-index virtual position (or the end of the
/// header when the index has none) to the end of the file, its
/// end-of-file marker included, so that the stream a client rebuilds is
/// terminated.
pub fn unmapped_byte_ranges(index: &BinningIndex, header_end: u64, file_size: u64) -> (r: Vec<
    BytesPosition,
>)
    requires
        file_size >= BGZF_EOF_LEN,
    ensures
        r@.len() == 1,
        r@[0].start == Some(
            match spec_last_interval(index.ref_seqs@) {
                Some(vp) => spec_vp_compressed(vp),
                None => header_end,
            },
        ),
        r@[0].end == Some(file_size),
        r@[0].class is None,
{
    let n = index.ref_seqs.len();
    let mut i: usize = n;
    proof {
        assert(index.ref_seqs@.take(n as int) =~= index.ref_seqs@);
    }
    while i > 0
        invariant
            n == index.ref_seqs@.len(),
            i <= n,
            file_size >= BGZF_EOF_LEN,
            spec_last_interval(index.ref_seqs@) == spec_last_interval(index.ref_seqs@.take(
                i as int)),
        decreases i,
    {
        proof {
            assert(index.ref_seqs@.take(i as int).last() == index.ref_seqs@[i - 1]);
            assert(index.ref_seqs@.take(i as int).drop_last() =~= index.ref_seqs@.take(i - 1));
        }
        let nints = index.ref_seqs[i - 1].intervals.len();
        if nints > 0 {
            let vp = index.ref_seqs[i - 1].intervals[nints - 1];
            assert(spec_last_interval(index.ref_seqs@) == Some(vp));
            let mut out: Vec<BytesPosition> = Vec::new();
            out.push(
                BytesPosition { start: Some(vp_compressed(vp)), end: Some(file_size), class: None },
            );
            return out;
        }
        i -= 1;
    }
    proof {
        assert(index.ref_seqs@.take(0).len() == 0);
    }
    let mut out: Vec<BytesPosition> = Vec::new();
    out.push(BytesPosition { start: Some(header_end), end: Some(file_size), class: None });
    out
}

/// The position of the whole object: what a query without a reference
/// name resolves to.
pub fn all_byte_ranges(file_size: u64) -> (r: Vec<BytesPosition>)
    ensures
        r@.len() == 1,
        r@[0] == (BytesPosition { start: None, end: Some(file_size), class: None }),
{
    let mut out: Vec<BytesPosition> = Vec::new();
    out.push(BytesPosition { start: None, end: Some(file_size), class: None });
    out
}

/// The header part of a BGZF file: everything before `header_end`, the
/// block boundary after the last header record.
pub fn header_byte_range(header_end: u64) -> (r: BytesPosition)
    ensures
        r == (BytesPosition { start: None, end: Some(header_end), class: None }),
{
    BytesPosition { start: None, end: Some(header_end), class: None }
}

/// The first offset of the list beyond `k`, in list order, or `fallback`
/// when the list has none.
pub open spec fn spec_first_greater_or(s: Seq<u64>, k: u64, fallback: u64) -> int
    decreases s.len(),
{
    if s.len() == 0 {
        fallback as int
    } else if s[0] > k {
        s[0] as int
    } else {
        spec_first_greater_or(s.drop_first(), k, fallback)
    }
}

/// The chosen offset lies beyond `k` or is the fallback.
pub proof fn lemma_first_greater_or_ge(s: Seq<u64>, k: u64, fallback: u64)
    ensures
        spec_first_greater_or(s, k, fallback) > k || spec_first_greater_or(s, k, fallback)
            == fallback,
        0 <= spec_first_greater_or(s, k, fallback) < 0x1_0000_0000_0000_0000,
    decreases s.len(),
{
    if s.len() != 0 && s[0] <= k {
        lemma_first_greater_or_ge(s.drop_first(), k, fallback);
    }
}

/// Find the first offset beyond `k`, or `fallback`.
pub fn first_greater_or(positions: &Vec<u64>, k: u64, fallback: u64) -> (r: u64)
    ensures
        r as int == spec_first_greater_or(positions@, k, fallback),
{
    let n = positions.len();
    let mut i: usize = 0;
    proof {
        assert(positions@.skip(0) =~= positions@);
    }
    while i < n
        invariant
            n == positions@.len(),
            i <= n,
            spec_first_greater_or(positions@, k, fallback) == spec_first_greater_or(
                positions@.skip(i as int), k, fallback),
        decreases n - i,
    {
        proof {
            assert(positions@.skip(i as int)[0] == positions@[i as int]);
        }
        if positions[i] > k {
            return positions[i];
        }
        proof {
            assert(positions@.skip(i as int).drop_first() =~= positions@.skip(i + 1));
        }
        i += 1;
    }
    proof {
        assert(positions@.skip(n as int).len() == 0);
    }
    fallback
}

} // verus!
