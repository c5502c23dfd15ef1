//! The retrieval decision for objects held in archival storage classes:
//! whether an object can be fetched immediately or only after a restore.

use vstd::prelude::*;
use vstd::string::StringSliceAdditionalSpecFns;

verus! {

/// The storage classes the decision distinguishes.
#[derive(Clone, Copy, Debug, PartialEq, Eq, Structural)]
pub enum StorageClass {
    Standard,
    DeepArchive,
    Glacier,
    IntelligentTiering,
    Other,
}

/// Whether an object can be retrieved immediately or only after a delay.
#[derive(Clone, Copy, Debug, PartialEq, Eq, Structural)]
pub enum Retrieval {
    Immediate(StorageClass),
    Delayed(StorageClass),
}

/// `p` occurs as a contiguous subsequence of `s`.
pub open spec fn spec_contains_seq(s: Seq<char>, p: Seq<char>) -> bool {
    exists|i: int| 0 <= i && i + p.len() <= s.len() && (#[trigger] s.subrange(i, i + p.len())) == p
}

/// Whether the pattern occurs at offset `i`.
fn match_at(s: &str, pattern: &str, i: usize) -> (r: bool)
    requires
        i + pattern@.len() <= s@.len(),
        s@.len() <= usize::MAX,
    ensures
        r == (s@.subrange(i as int, i + pattern@.len()) == pattern@),
{
    let m = pattern.unicode_len();
    let mut j: usize = 0;
    while j < m
        invariant
            m == pattern@.len(),
            i + m <= s@.len(),
            s@.len() <= usize::MAX,
            j <= m,
            forall|k: int| 0 <= k < j ==> s@[i + k] == pattern@[k],
        decreases m - j,
    {
        if s.get_char(i + j) != pattern.get_char(j) {
            proof {
                assert(s@.subrange(i as int, i + pattern@.len())[j as int] != pattern@[
                    j as int]);
            }
            return false;
        }
        j += 1;
    }
    proof {
        assert(s@.subrange(i as int, i + pattern@.len()) =~= pattern@);
    }
    true
}

/// Character-wise substring search.
fn str_contains(s: &str, pattern: &str) -> (r: bool)
    ensures
        r == spec_contains_seq(s@, pattern@),
{
    let n = s.unicode_len();
    let m = pattern.unicode_len();
    if m == 0 {
        proof {
            assert(s@.subrange(0, 0 + pattern@.len() as int) =~= pattern@);
        }
        return true;
    }
    if m > n {
        return false;
    }
    let mut i: usize = 0;
    while i <= n - m
        invariant
            0 < m <= n,
            n == s@.len(),
            m == pattern@.len(),
            i <= n - m + 1,
            forall|k: int| 0 <= k < i ==> (#[trigger] s@.subrange(k, k + pattern@.len()))
                != pattern@,
        decreases n + 1 - m - i,
    {
        if match_at(s, pattern, i) {
            return true;
        }
        i += 1;
    }
    proof {
        assert forall|k: int| 0 <= k && k + pattern@.len() <= s@.len() implies (
        #[trigger] s@.subrange(k, k + pattern@.len())) != pattern@ by {}
    }
    false
}

/// Whether a restore header reports a finished restore: it holds the
/// marker of a no-longer-ongoing request.
pub open spec fn spec_restore_finished(restore: Option<String>) -> bool {
    restore matches Some(h) && spec_contains_seq(h@, "ongoing-request=\"false\""@)
}

/// Decide the retrieval of an archived object from its restore header:
/// immediate only when a restore has finished.
pub fn check_restore_header(restore_header: Option<String>, class: StorageClass) -> (r:
    Retrieval)
    ensures
        spec_restore_finished(restore_header) ==> r == Retrieval::Immediate(class),
        !spec_restore_finished(restore_header) ==> r == Retrieval::Delayed(class),
{
    if let Some(restore) = restore_header {
        if str_contains(restore.as_str(), "ongoing-request=\"false\"") {
            return Retrieval::Immediate(class);
        }
    }
    Retrieval::Delayed(class)
}

/// Decide the retrieval of an object from what a head request reported:
/// the archival classes go through the restore header, an archived
/// intelligent-tiering object too, everything else is immediate.
pub fn get_retrieval_type(
    class: StorageClass,
    restore: Option<String>,
    archive_status_present: bool,
) -> (r: Retrieval)
    ensures
        match class {
            StorageClass::DeepArchive | StorageClass::Glacier => r == (if spec_restore_finished(
                restore,
            ) {
                Retrieval::Immediate(class)
            } else {
                Retrieval::Delayed(class)
            }),
            StorageClass::IntelligentTiering => {
                if archive_status_present {
                    r == (if spec_restore_finished(restore) {
                        Retrieval::Immediate(class)
                    } else {
                        Retrieval::Delayed(class)
                    })
                } else {
                    r == Retrieval::Immediate(class)
                }
            },
            _ => r == Retrieval::Immediate(class),
        },
{
    match class {
        StorageClass::DeepArchive | StorageClass::Glacier => check_restore_header(
            restore,
            class,
        ),
        StorageClass::IntelligentTiering => {
            if archive_status_present {
                check_restore_header(restore, class)
            } else {
                Retrieval::Immediate(class)
            }
        },
        _ => Retrieval::Immediate(class),
    }
}

} // verus!
