//! The in-memory model of a binning index (BAI, CSI, TBI): per-reference
//! bins of chunks, a linear index, and optional metadata, together with the
//! genomic range arithmetic of the hierarchical binning scheme.

use vstd::prelude::*;
use vstd::arithmetic::power2::{pow2, lemma_pow2_adds, lemma_pow2_pos};

verus! {

/// The number of compressed bytes a virtual position addresses per
/// uncompressed offset unit: virtual positions are
/// `compressed_offset * 65536 + uncompressed_offset`.
pub const VP_SCALE: u64 = 65536;

/// The compressed (file) offset of a BGZF virtual position.
pub open spec fn spec_vp_compressed(vp: u64) -> u64 {
    vp / 65536
}

/// The uncompressed (in-block) offset of a BGZF virtual position.
pub open spec fn spec_vp_uncompressed(vp: u64) -> u64 {
    vp % 65536
}

/// The compressed offset of a virtual position: the start of the BGZF
/// block that holds it.
pub fn vp_compressed(vp: u64) -> (r: u64)
    ensures
        r == spec_vp_compressed(vp),
{
    vp / VP_SCALE
}

/// The uncompressed offset of a virtual position within its block.
pub fn vp_uncompressed(vp: u64) -> (r: u64)
    ensures
        r == spec_vp_uncompressed(vp),
{
    vp % VP_SCALE
}

/// A chunk of records: a pair of virtual positions.
#[derive(Clone, Copy, Debug, PartialEq, Eq, Structural)]
pub struct Chunk {
    pub start: u64,
    pub end: u64,
}

impl Chunk {
    /// The interval is not inverted.
    pub open spec fn wf(self) -> bool {
        self.start <= self.end
    }
}

/// A bin of the binning scheme holding the chunks of the records assigned
/// to it.
#[derive(Clone, Debug, PartialEq, Eq)]
pub struct Bin {
    pub id: u32,
    pub chunks: Vec<Chunk>,
}

/// Optional per-reference metadata of an index: the start and end virtual
/// positions of the records and the mapped/unmapped record counts.
#[derive(Clone, Copy, Debug, PartialEq, Eq, Structural)]
pub struct Metadata {
    pub start_vp: u64,
    pub end_vp: u64,
    pub mapped: u64,
    pub unmapped: u64,
}

/// The index data of one reference sequence.
#[derive(Clone, Debug, PartialEq, Eq)]
pub struct ReferenceSequenceIndex {
    pub bins: Vec<Bin>,
    /// The linear index: for each window of `2^min_shift` genomic
    /// positions, the smallest virtual position whose record could overlap
    /// the window.
    pub intervals: Vec<u64>,
    pub metadata: Option<Metadata>,
}

/// A binning index: the binning scheme parameters and the per-reference
/// index data. For BAI and TBI, `min_shift` is 14 and `depth` is 5.
#[derive(Clone, Debug, PartialEq, Eq)]
pub struct BinningIndex {
    pub min_shift: u32,
    pub depth: u32,
    pub ref_seqs: Vec<ReferenceSequenceIndex>,
}

impl ReferenceSequenceIndex {
    /// All chunks are well-formed.
    pub open spec fn wf(self) -> bool {
        forall|i: int, j: int|
            0 <= i < self.bins@.len() && 0 <= j < (#[trigger] self.bins@[i]).chunks@.len() ==> (
            #[trigger] self.bins@[i].chunks@[j]).wf()
    }
}

impl BinningIndex {
    /// The scheme parameters stay in the range the arithmetic supports and
    /// every chunk is well-formed.
    pub open spec fn wf(self) -> bool {
        &&& 1 <= self.min_shift
        &&& 1 <= self.depth
        &&& self.min_shift + 3 * self.depth <= 48
        &&& forall|r: int| 0 <= r < self.ref_seqs@.len() ==> (#[trigger] self.ref_seqs@[r]).wf()
    }
}

/// The id of the first bin of a level of the binning scheme.
pub open spec fn spec_first_id(level: nat) -> nat
    decreases level,
{
    if level == 0 {
        0
    } else {
        8 * spec_first_id((level - 1) as nat) + 1
    }
}

/// The first id of each level satisfies `7 * first + 1 == 8^level`.
pub proof fn lemma_first_id_exact(level: nat)
    ensures
        7 * spec_first_id(level) + 1 == pow2(3 * level),
    decreases level,
{
    if level == 0 {
        assert(pow2(0) == 1) by {
            vstd::arithmetic::power2::lemma2_to64();
        }
    } else {
        lemma_first_id_exact((level - 1) as nat);
        lemma_pow2_adds(3 * (level - 1) as nat, 3);
        assert(pow2(3) == 8) by {
            vstd::arithmetic::power2::lemma2_to64();
        }
    }
}

/// The genomic range `[beg, end)` of the bin `id`, or `None` when `id` is
/// no bin of the scheme, searching levels from `level` up.
pub open spec fn spec_bin_range_from(id: nat, min_shift: nat, depth: nat, level: nat) -> Option<
    (int, int),
>
    decreases depth + 1 - level,
{
    if level > depth {
        None
    } else if id < spec_first_id(level + 1) {
        let size = pow2((min_shift + 3 * (depth - level)) as nat) as int;
        let beg = (id - spec_first_id(level)) * size;
        Some((beg, beg + size))
    } else {
        spec_bin_range_from(id, min_shift, depth, level + 1)
    }
}

/// The genomic range `[beg, end)` covered by bin `id`, or `None` when `id`
/// is no bin of the scheme (a metadata pseudo-bin).
pub open spec fn spec_bin_range(id: nat, min_shift: nat, depth: nat) -> Option<(int, int)> {
    spec_bin_range_from(id, min_shift, depth, 0)
}

/// Compute the genomic range of bin `id`.
pub fn bin_range(id: u32, min_shift: u32, depth: u32) -> (r: Option<(u64, u64)>)
    requires
        1 <= min_shift,
        1 <= depth,
        min_shift + 3 * depth <= 48,
    ensures
        match r {
            Some((b, e)) => spec_bin_range(id as nat, min_shift as nat, depth as nat) == Some(
                (b as int, e as int),
            ),
            None => spec_bin_range(id as nat, min_shift as nat, depth as nat) is None,
        },
{
    let total_shift = min_shift + 3 * depth;
    proof {
        vstd::bits::lemma_u64_pow2_no_overflow(total_shift as nat);
        vstd::bits::lemma_u64_shl_is_mul(1u64, total_shift as u64);
    }
    let mut size: u64 = 1u64 << (total_shift as u64);
    let mut level: u32 = 0;
    let mut first: u64 = 0;
    loop
        invariant
            1 <= min_shift && 1 <= depth && min_shift + 3 * depth <= 48,
            level <= depth,
            first == spec_first_id(level as nat),
            id as u64 >= first,
            size == pow2((min_shift + 3 * (depth - level)) as nat),
            spec_bin_range(id as nat, min_shift as nat, depth as nat) == spec_bin_range_from(
                id as nat, min_shift as nat, depth as nat, level as nat),
        decreases depth - level,
    {
        proof {
            lemma_first_id_exact((level + 1) as nat);
            assert(pow2(3 * (level + 1) as nat) <= pow2(48)) by {
                if 3 * (level + 1) < 48 {
                    vstd::arithmetic::power2::lemma_pow2_strictly_increases(
                        3 * (level + 1) as nat, 48)
                }
            }
            assert(pow2(48) < 0x8000000000000000) by {
                vstd::arithmetic::power2::lemma2_to64_rest();
            }
            assert(8 * spec_first_id(level as nat) + 1 == spec_first_id((level + 1) as nat));
        }
        let next_first: u64 = 8 * first + 1;
        assert(next_first == spec_first_id((level + 1) as nat));
        if (id as u64) < next_first {
            proof {
                let l = level as nat;
                let sz = (min_shift + 3 * (depth - level)) as nat;
                lemma_pow2_pos(sz);
                lemma_first_id_exact(l);
                assert(spec_first_id(l + 1) - spec_first_id(l) == 7 * spec_first_id(l) + 1);
                assert(id as u64 - first < pow2(3 * l));
                assert((id as u64 - first) * size < pow2(3 * l) * pow2(sz)) by (nonlinear_arith)
                    requires
                        id as u64 - first < pow2(3 * l),
                        size == pow2(sz),
                        size > 0,
                {
                }
                lemma_pow2_adds(3 * l, sz);
                assert(3 * l + sz == (min_shift + 3 * depth) as nat);
                assert(pow2((min_shift + 3 * depth) as nat) <= pow2(48)) by {
                    if min_shift + 3 * depth < 48 {
                        vstd::arithmetic::power2::lemma_pow2_strictly_increases(
                            (min_shift + 3 * depth) as nat, 48)
                    }
                }
                assert((id as u64 - first + 1) * size <= pow2(3 * l) * pow2(sz)) by (
                nonlinear_arith)
                    requires
                        id as u64 - first + 1 <= pow2(3 * l),
                        size == pow2(sz),
                        size > 0,
                {
                }
                assert((id as u64 - first) * size + size == (id as u64 - first + 1) * size) by (
                nonlinear_arith);
            }
            let beg: u64 = (id as u64 - first) * size;
            return Some((beg, beg + size));
        }
        if level == depth {
            proof {
                assert(spec_bin_range_from(
                    id as nat, min_shift as nat, depth as nat, (level + 1) as nat) is None);
            }
            return None;
        }
        proof {
            let sz = (min_shift + 3 * (depth - level)) as nat;
            lemma_pow2_adds((sz - 3) as nat, 3);
            assert(pow2(3) == 8) by {
                vstd::arithmetic::power2::lemma2_to64();
            }
            lemma_pow2_pos((sz - 3) as nat);
        }
        size = size / 8;
        level = level + 1;
        first = next_first;
    }
}

} // verus!
