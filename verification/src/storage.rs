//! Byte positions of an object: half-open intervals with an optional class
//! tag, their canonical merge, and the HTTP `Range` form.

use vstd::prelude::*;
use vstd::string::StringExecFns;
use vstd::multiset::Multiset;
use crate::types::Class;
use crate::decimal::{spec_decimal, u64_to_string};

verus! {

/// One more than the largest `u64`: the effective end of a position whose
/// upper bound is absent.
pub open spec fn end_unbounded() -> int {
    0x1_0000_0000_0000_0000
}

/// A half-open interval of bytes with an optional class tag. An absent
/// start means the start of the object; an absent end means its end.
#[derive(Clone, Copy, Debug, PartialEq, Eq)]
pub struct BytesPosition {
    pub start: Option<u64>,
    pub end: Option<u64>,
    pub class: Option<Class>,
}

impl BytesPosition {
    /// The effective start.
    pub open spec fn spec_start(self) -> int {
        match self.start {
            Some(s) => s as int,
            None => 0,
        }
    }

    /// The effective end; an absent end lies beyond every byte.
    pub open spec fn spec_end(self) -> int {
        match self.end {
            Some(e) => e as int,
            None => end_unbounded(),
        }
    }

    /// The interval is not inverted.
    pub open spec fn wf(self) -> bool {
        self.spec_start() <= self.spec_end()
    }

    /// The rank of the class tag in the canonical order.
    pub open spec fn spec_class_rank(self) -> int {
        match self.class {
            None => 0,
            Some(Class::Header) => 1,
            Some(Class::Body) => 2,
        }
    }

    /// Total order by class, then start, then end.
    pub open spec fn spec_le(self, other: Self) -> bool {
        if self.spec_class_rank() != other.spec_class_rank() {
            self.spec_class_rank() < other.spec_class_rank()
        } else if self.spec_start() != other.spec_start() {
            self.spec_start() < other.spec_start()
        } else {
            self.spec_end() <= other.spec_end()
        }
    }

    /// Whether `self` covers byte `b` under class `c`.
    pub open spec fn spec_covers(self, c: Option<Class>, b: int) -> bool {
        self.class == c && self.spec_start() <= b < self.spec_end()
    }

    /// Two positions in order are mergeable when they carry the same class
    /// and touch or overlap.
    pub open spec fn spec_mergeable(self, next: Self) -> bool {
        self.class == next.class && next.spec_start() <= self.spec_end()
    }

    /// Create a position.
    pub fn new(start: Option<u64>, end: Option<u64>, class: Option<Class>) -> (r: Self)
        ensures
            r == (BytesPosition { start, end, class }),
    {
        Self { start, end, class }
    }

    /// Set the start.
    pub fn with_start(self, start: u64) -> (r: Self)
        ensures
            r == (BytesPosition { start: Some(start), ..self }),
    {
        Self { start: Some(start), ..self }
    }

    /// Set the end.
    pub fn with_end(self, end: u64) -> (r: Self)
        ensures
            r == (BytesPosition { end: Some(end), ..self }),
    {
        Self { end: Some(end), ..self }
    }

    /// Set the class.
    pub fn with_class(self, class: Class) -> (r: Self)
        ensures
            r == (BytesPosition { class: Some(class), ..self }),
    {
        Self { class: Some(class), ..self }
    }

    /// Get the start.
    pub fn get_start(&self) -> (r: Option<u64>)
        ensures
            r == self.start,
    {
        self.start
    }

    /// Get the end.
    pub fn get_end(&self) -> (r: Option<u64>)
        ensures
            r == self.end,
    {
        self.end
    }

    /// Get the class.
    pub fn get_class(&self) -> (r: Option<Class>)
        ensures
            r == self.class,
    {
        self.class
    }
}

impl Default for BytesPosition {
    /// The position of the whole object, untagged.
    fn default() -> (r: Self)
        ensures
            r == (BytesPosition { start: None, end: None, class: None }),
    {
        Self { start: None, end: None, class: None }
    }
}

/// Whether some position of the list covers byte `b` under class `c`.
pub open spec fn list_covers(s: Seq<BytesPosition>, c: Option<Class>, b: int) -> bool {
    exists|i: int| 0 <= i < s.len() && (#[trigger] s[i]).spec_covers(c, b)
}

/// All positions of the list are well-formed.
pub open spec fn all_wf(s: Seq<BytesPosition>) -> bool {
    forall|i: int| 0 <= i < s.len() ==> (#[trigger] s[i]).wf()
}

/// The list is sorted by the canonical order.
pub open spec fn is_sorted(s: Seq<BytesPosition>) -> bool {
    forall|i: int, j: int| 0 <= i < j < s.len() ==> (#[trigger] s[i]).spec_le(#[trigger] s[j])
}

/// A list is canonical when its positions are well-formed, sorted, and no
/// position is mergeable with the next.
pub open spec fn is_canonical(s: Seq<BytesPosition>) -> bool {
    &&& all_wf(s)
    &&& is_sorted(s)
    &&& forall|i: int| 0 <= i < s.len() - 1 ==> !(#[trigger] s[i]).spec_mergeable(s[i + 1])
}

/// In a canonical list no two positions at all are mergeable: the intervals
/// of equal class are separated by gaps.
pub proof fn lemma_canonical_pairwise(s: Seq<BytesPosition>, i: int, j: int)
    requires
        is_canonical(s),
        0 <= i < j < s.len(),
    ensures
        !s[i].spec_mergeable(s[j]),
    decreases j - i,
{
    if s[i].class == s[j].class {
        if j == i + 1 {
        } else {
            assert(s[i].spec_le(s[i + 1]) && s[i + 1].spec_le(s[j]));
            assert(s[i + 1].class == s[i].class);
            lemma_canonical_pairwise(s, i + 1, j);
            assert(s[i].spec_end() < s[i + 1].spec_start());
            assert(s[i + 1].spec_start() <= s[i + 1].spec_end());
        }
    }
}

/// Total order by class, then start, then end.
fn le_exec(a: &BytesPosition, b: &BytesPosition) -> (r: bool)
    ensures
        r == a.spec_le(*b),
{
    let ra = class_rank_exec(a);
    let rb = class_rank_exec(b);
    if ra != rb {
        ra < rb
    } else {
        let sa = match a.start {
            Some(s) => s,
            None => 0,
        };
        let sb = match b.start {
            Some(s) => s,
            None => 0,
        };
        if sa != sb {
            sa < sb
        } else {
            match (a.end, b.end) {
                (_, None) => true,
                (None, Some(_)) => false,
                (Some(x), Some(y)) => x <= y,
            }
        }
    }
}

fn class_rank_exec(a: &BytesPosition) -> (r: u8)
    ensures
        r as int == a.spec_class_rank(),
{
    match a.class {
        None => 0,
        Some(Class::Header) => 1,
        Some(Class::Body) => 2,
    }
}

/// The canonical order is total.
proof fn lemma_le_total(a: BytesPosition, b: BytesPosition)
    ensures
        a.spec_le(b) || b.spec_le(a),
{
}

/// The canonical order is transitive.
proof fn lemma_le_trans(a: BytesPosition, b: BytesPosition, c: BytesPosition)
    requires
        a.spec_le(b),
        b.spec_le(c),
    ensures
        a.spec_le(c),
{
}

/// Two lists with the same elements cover the same bytes.
proof fn lemma_covers_multiset(s: Seq<BytesPosition>, t: Seq<BytesPosition>)
    requires
        s.to_multiset() == t.to_multiset(),
    ensures
        forall|c: Option<Class>, b: int| list_covers(s, c, b) == list_covers(t, c, b),
{
    s.to_multiset_ensures();
    t.to_multiset_ensures();
    assert forall|c: Option<Class>, b: int| list_covers(s, c, b) == list_covers(t, c, b) by {
        if list_covers(s, c, b) {
            let i = choose|i: int| 0 <= i < s.len() && (#[trigger] s[i]).spec_covers(c, b);
            assert(s.contains(s[i]));
            assert(s.to_multiset().count(s[i]) > 0);
            assert(t.contains(s[i]));
            let j = choose|j: int| 0 <= j < t.len() && t[j] == s[i];
            assert(t[j].spec_covers(c, b));
        }
        if list_covers(t, c, b) {
            let i = choose|i: int| 0 <= i < t.len() && (#[trigger] t[i]).spec_covers(c, b);
            assert(t.contains(t[i]));
            assert(t.to_multiset().count(t[i]) > 0);
            assert(s.contains(t[i]));
            let j = choose|j: int| 0 <= j < s.len() && s[j] == t[i];
            assert(s[j].spec_covers(c, b));
        }
    }
}

/// The index at which `item` is inserted to keep the list sorted.
fn find_insert_pos(sorted: &Vec<BytesPosition>, item: &BytesPosition) -> (j: usize)
    requires
        is_sorted(sorted@),
    ensures
        j <= sorted@.len(),
        forall|k: int| 0 <= k < j ==> (#[trigger] sorted@[k]).spec_le(*item),
        j < sorted@.len() ==> item.spec_le(sorted@[j as int]),
    {
    let mut j: usize = 0;
    while j < sorted.len()
        invariant
            j <= sorted@.len(),
            forall|k: int| 0 <= k < j ==> (#[trigger] sorted@[k]).spec_le(*item),
        decreases sorted@.len() - j,
    {
        if !le_exec(&sorted[j], item) {
            proof {
                lemma_le_total(sorted@[j as int], *item);
            }
            return j;
        }
        j += 1;
    }
    j
}

/// Sort positions by the canonical order, keeping the same elements.
fn sort_positions(positions: Vec<BytesPosition>) -> (r: Vec<BytesPosition>)
    ensures
        is_sorted(r@),
        r@.to_multiset() == positions@.to_multiset(),
{
    let ghost input = positions@;
    let mut rest = positions;
    let mut sorted: Vec<BytesPosition> = Vec::new();
    proof {
        assert(sorted@ + rest@ =~= input);
        vstd::seq_lib::lemma_multiset_commutative(sorted@, rest@);
    }
    while rest.len() > 0
        invariant
            is_sorted(sorted@),
            sorted@.to_multiset().add(rest@.to_multiset()) =~= input.to_multiset(),
        decreases rest@.len(),
    {
        let ghost pre_rest = rest@;
        let item = rest.pop().unwrap();
        proof {
            assert(pre_rest =~= rest@.push(item));
            rest@.to_multiset_ensures();
        }
        let j = find_insert_pos(&sorted, &item);
        proof {
            if j < sorted@.len() {
                lemma_le_total(sorted@[j as int], item);
            }
        }
        let ghost pre_sorted = sorted@;
        sorted.insert(j, item);
        proof {
            assert(is_sorted(sorted@)) by {
                assert forall|x: int, y: int| 0 <= x < y < sorted@.len() implies (
                #[trigger] sorted@[x]).spec_le(#[trigger] sorted@[y]) by {
                    if x < j && y == j {
                    } else if x == j && y > j {
                        assert(sorted@[y] == pre_sorted[y - 1]);
                        if j < pre_sorted.len() {
                            lemma_le_trans(item, pre_sorted[j as int], pre_sorted[y - 1]);
                        }
                    } else if x < j && y > j {
                        assert(sorted@[x] == pre_sorted[x] && sorted@[y] == pre_sorted[y - 1]);
                    } else if x > j && y > j {
                        assert(sorted@[x] == pre_sorted[x - 1] && sorted@[y] == pre_sorted[y - 1]);
                    }
                }
            }
            assert(sorted@.to_multiset() =~= pre_sorted.to_multiset().insert(item)) by {
                assert(sorted@ =~= pre_sorted.take(j as int).push(item) + pre_sorted.skip(
                    j as int));
                lemma_multiset_of_insert(pre_sorted, item, j as int);
            }
            assert(sorted@.to_multiset().add(rest@.to_multiset()) =~= input.to_multiset());
        }
    }
    proof {
        rest@.to_multiset_ensures();
        vstd::multiset::lemma_multiset_empty_len(rest@.to_multiset());
        assert(rest@.to_multiset() =~= Multiset::<BytesPosition>::empty());
        assert(sorted@.to_multiset() =~= sorted@.to_multiset().add(rest@.to_multiset())) by {
            broadcast use vstd::multiset::group_multiset_axioms;
        }
    }
    sorted
}

/// Inserting an element at position `j` adds it to the multiset.
proof fn lemma_multiset_of_insert(s: Seq<BytesPosition>, item: BytesPosition, j: int)
    requires
        0 <= j <= s.len(),
    ensures
        (s.take(j).push(item) + s.skip(j)).to_multiset() =~= s.to_multiset().insert(item),
{
    let t = s.take(j).push(item) + s.skip(j);
    s.to_multiset_ensures();
    t.to_multiset_ensures();
    s.take(j).to_multiset_ensures();
    s.skip(j).to_multiset_ensures();
    s.take(j).push(item).to_multiset_ensures();
    vstd::seq_lib::lemma_multiset_commutative(s.take(j).push(item), s.skip(j));
    vstd::seq_lib::lemma_multiset_commutative(s.take(j), s.skip(j));
    assert(s.take(j) + s.skip(j) =~= s);
    assert(s.take(j).push(item).to_multiset() =~= s.take(j).to_multiset().insert(item));
    assert(t.to_multiset() =~= s.take(j).to_multiset().insert(item).add(
        s.skip(j).to_multiset()));
    assert(s.take(j).to_multiset().insert(item).add(s.skip(j).to_multiset()) =~= s.take(
        j).to_multiset().add(s.skip(j).to_multiset()).insert(item));
}

/// Coverage of a list with one position appended.
pub proof fn lemma_covers_push(s: Seq<BytesPosition>, p: BytesPosition, c: Option<Class>, b: int)
    ensures
        list_covers(s.push(p), c, b) == (list_covers(s, c, b) || p.spec_covers(c, b)),
{
    if list_covers(s.push(p), c, b) {
        let k = choose|k: int| 0 <= k < s.push(p).len() && (#[trigger] s.push(p)[k]).spec_covers(
            c, b);
        if k < s.len() {
            assert(s[k].spec_covers(c, b));
        }
    }
    if list_covers(s, c, b) {
        let k = choose|k: int| 0 <= k < s.len() && (#[trigger] s[k]).spec_covers(c, b);
        assert(s.push(p)[k].spec_covers(c, b));
    }
    if p.spec_covers(c, b) {
        assert(s.push(p)[s.len() as int].spec_covers(c, b));
    }
}

/// Coverage of a list with its last position replaced.
proof fn lemma_covers_update_last(
    s: Seq<BytesPosition>,
    u: BytesPosition,
    c: Option<Class>,
    b: int,
)
    requires
        s.len() > 0,
    ensures
        list_covers(s.update(s.len() - 1, u), c, b) == (list_covers(s.drop_last(), c, b)
            || u.spec_covers(c, b)),
        list_covers(s, c, b) == (list_covers(s.drop_last(), c, b) || s.last().spec_covers(c, b)),
{
    assert(s.update(s.len() - 1, u) =~= s.drop_last().push(u));
    assert(s =~= s.drop_last().push(s.last()));
    lemma_covers_push(s.drop_last(), u, c, b);
    lemma_covers_push(s.drop_last(), s.last(), c, b);
}

/// Merge a sorted, well-formed list of positions into canonical form,
/// covering exactly the same bytes.
fn merge_sorted(sorted: Vec<BytesPosition>) -> (r: Vec<BytesPosition>)
    requires
        is_sorted(sorted@),
        all_wf(sorted@),
    ensures
        is_canonical(r@),
        forall|c: Option<Class>, b: int| list_covers(r@, c, b) == list_covers(sorted@, c, b),
{
    let ghost input = sorted@;
    let mut out: Vec<BytesPosition> = Vec::new();
    let n = sorted.len();
    let mut i: usize = 0;
    while i < n
        invariant
            n == input.len(),
            sorted@ == input,
            is_sorted(input),
            all_wf(input),
            i <= n,
            is_canonical(out@),
            forall|c: Option<Class>, b: int| #![all_triggers]
                list_covers(out@, c, b) == list_covers(input.take(i as int), c, b),
            forall|k: int, m: int| 0 <= k < out@.len() && i <= m < n ==> (
            #[trigger] out@[k]).spec_le(#[trigger] input[m]),
        decreases n - i,
    {
        let p = sorted[i];
        assert(p == input[i as int]);
        let m = out.len();
        let mut merged = false;
        if m > 0 {
            let prev = &out[m - 1];
            let same_class = class_rank_exec(prev) == class_rank_exec(&p) && match (prev.class,
                p.class) {
                (None, None) => true,
                (Some(Class::Header), Some(Class::Header)) => true,
                (Some(Class::Body), Some(Class::Body)) => true,
                _ => false,
            };
            let touches = match (p.start, prev.end) {
                (None, _) => true,
                (_, None) => true,
                (Some(ps), Some(pe)) => ps <= pe,
            };
            if same_class && touches {
                assert(out@[m - 1].spec_mergeable(input[i as int]));
                let new_end: Option<u64> = match (prev.end, p.end) {
                    (Some(a), Some(b)) => Some(
                        if a < b {
                            b
                        } else {
                            a
                        },
                    ),
                    _ => None,
                };
                let ghost pre_out = out@;
                let updated = BytesPosition {
                    start: prev.start,
                    end: new_end,
                    class: prev.class,
                };
                out[m - 1] = updated;
                proof {
                    let q = pre_out[m - 1];
                    let u = out@[m - 1];
                    assert(out@ =~= pre_out.update(m - 1, u));
                    assert(u.spec_start() == q.spec_start() && u.class == q.class);
                    assert(u.spec_end() == if q.spec_end() < input[i as int].spec_end() {
                        input[i as int].spec_end()
                    } else {
                        q.spec_end()
                    });
                    assert(is_canonical(out@)) by {
                        assert(forall|k: int| 0 <= k < out@.len() - 1 ==> out@[k]
                            == pre_out[k]);
                        if m >= 2 {
                            assert(!pre_out[m - 2].spec_mergeable(q));
                            assert(!out@[m - 2].spec_mergeable(u));
                        }
                    }
                    assert(u.wf());
                    assert forall|c: Option<Class>, b: int| #![all_triggers]
                        list_covers(out@, c, b) == list_covers(input.take(i + 1), c, b) by {
                        assert(input.take(i + 1) =~= input.take(i as int).push(
                            input[i as int]));
                        let pp = input[i as int];
                        lemma_covers_update_last(pre_out, u, c, b);
                        lemma_covers_push(input.take(i as int), pp, c, b);
                        assert(u.spec_covers(c, b) == (q.spec_covers(c, b) || pp.spec_covers(
                            c, b))) by {
                            assert(q.spec_le(pp));
                            assert(q.spec_start() <= pp.spec_start());
                            assert(pp.spec_start() <= q.spec_end());
                            assert(pp.wf() && q.wf());
                        }
                        assert(list_covers(pre_out, c, b) == (list_covers(pre_out.drop_last(),
                            c, b) || q.spec_covers(c, b)));
                        assert(list_covers(pre_out, c, b) == list_covers(input.take(i as int),
                            c, b));
                    }
                    assert forall|k: int, mm: int| 0 <= k < out@.len() && i + 1 <= mm < n
                        implies (#[trigger] out@[k]).spec_le(#[trigger] input[mm]) by {
                        if k == m - 1 {
                            assert(input[i as int].spec_le(input[mm]));
                            assert(q.spec_le(input[mm]));
                            assert(u.spec_end() == input[i as int].spec_end() || u.spec_end()
                                == q.spec_end());
                        }
                    }
                }
                merged = true;
            }
        }
        if !merged {
            let ghost pre_out = out@;
            proof {
                if m > 0 {
                    assert(!out@[m - 1].spec_mergeable(input[i as int]));
                }
            }
            out.push(p);
            proof {
                assert(out@ =~= pre_out.push(input[i as int]));
                assert(is_canonical(out@)) by {
                    assert(forall|k: int| 0 <= k < pre_out.len() ==> out@[k] == pre_out[k]);
                }
                assert forall|c: Option<Class>, b: int| #![all_triggers]
                    list_covers(out@, c, b) == list_covers(input.take(i + 1), c, b) by {
                    assert(input.take(i + 1) =~= input.take(i as int).push(input[i as int]));
                    lemma_covers_push(pre_out, input[i as int], c, b);
                    lemma_covers_push(input.take(i as int), input[i as int], c, b);
                    assert(list_covers(pre_out, c, b) == list_covers(input.take(i as int), c,
                        b));
                }
            }
        }
        i += 1;
    }
    proof {
        assert(input.take(n as int) =~= input);
    }
    out
}

impl BytesPosition {
    /// Merge a list of positions into canonical form: sorted by class,
    /// start and end, with no two positions mergeable, covering exactly
    /// the same bytes as the input.
    pub fn merge_all(positions: Vec<BytesPosition>) -> (r: Vec<BytesPosition>)
        requires
            all_wf(positions@),
        ensures
            is_canonical(r@),
            forall|c: Option<Class>, b: int| #![all_triggers]
                list_covers(r@, c, b) == list_covers(positions@, c, b),
    {
        let ghost input = positions@;
        let sorted = sort_positions(positions);
        proof {
            lemma_covers_multiset(sorted@, input);
            assert(all_wf(sorted@)) by {
                sorted@.to_multiset_ensures();
                input.to_multiset_ensures();
                assert forall|i: int| 0 <= i < sorted@.len() implies (
                #[trigger] sorted@[i]).wf() by {
                    assert(sorted@.contains(sorted@[i]));
                    assert(sorted@.to_multiset().count(sorted@[i]) > 0);
                    assert(input.contains(sorted@[i]));
                    let j = choose|j: int| 0 <= j < input.len() && input[j] == sorted@[i];
                }
            }
        }
        merge_sorted(sorted)
    }
}


/// No position of the list is empty: each covers at least one byte.
pub open spec fn all_nonempty(s: Seq<BytesPosition>) -> bool {
    forall|i: int| 0 <= i < s.len() ==> (#[trigger] s[i]).spec_start() < s[i].spec_end()
}

/// Remove the empty positions of a canonical list. An empty position
/// covers no byte, so the covered bytes are unchanged, and dropping
/// elements of a canonical list keeps it canonical.
pub fn drop_empty(positions: Vec<BytesPosition>) -> (r: Vec<BytesPosition>)
    requires
        is_canonical(positions@),
    ensures
        is_canonical(r@),
        all_nonempty(r@),
        forall|c: Option<Class>, b: int| #![all_triggers]
            list_covers(r@, c, b) == list_covers(positions@, c, b),
{
    let ghost input = positions@;
    let mut out: Vec<BytesPosition> = Vec::new();
    let n = positions.len();
    let mut i: usize = 0;
    while i < n
        invariant
            n == input.len(),
            positions@ == input,
            is_canonical(input),
            i <= n,
            is_canonical(out@),
            all_nonempty(out@),
            forall|k: int| 0 <= k < out@.len() ==> exists|j: int|
                0 <= j < i && (#[trigger] out@[k]) == input[j],
            forall|c: Option<Class>, b: int| #![all_triggers]
                list_covers(out@, c, b) == list_covers(input.take(i as int), c, b),
        decreases n - i,
    {
        let p = positions[i];
        let keep = match (p.start, p.end) {
            (Some(s), Some(e)) => s < e,
            (None, Some(e)) => e > 0,
            (_, None) => true,
        };
        let ghost pre = out@;
        if keep {
            out.push(p);
            proof {
                assert(forall|k: int| 0 <= k < pre.len() ==> out@[k] == pre[k]);
                assert(is_canonical(out@)) by {
                    assert forall|a: int, b2: int| 0 <= a < b2 < out@.len() implies (
                    #[trigger] out@[a]).spec_le(#[trigger] out@[b2]) by {
                        if b2 == out@.len() - 1 && a < b2 {
                            let j = choose|j: int|
                                0 <= j < i && (#[trigger] out@[a]) == input[j];
                            assert(input[j].spec_le(input[i as int]));
                        }
                    }
                    assert forall|a: int| 0 <= a < out@.len() - 1 implies !(
                    #[trigger] out@[a]).spec_mergeable(out@[a + 1]) by {
                        if a + 1 == out@.len() - 1 {
                            let j = choose|j: int|
                                0 <= j < i && (#[trigger] out@[a]) == input[j];
                            if j == i {
                            } else {
                                lemma_canonical_pairwise(input, j, i as int);
                            }
                        }
                    }
                }
            }
        }
        proof {
            assert forall|c: Option<Class>, b: int| #![all_triggers]
                list_covers(out@, c, b) == list_covers(input.take(i + 1), c, b) by {
                assert(input.take(i + 1) =~= input.take(i as int).push(input[i as int]));
                lemma_covers_push(input.take(i as int), input[i as int], c, b);
                if keep {
                    lemma_covers_push(pre, input[i as int], c, b);
                } else {
                    assert(!input[i as int].spec_covers(c, b));
                }
            }
        }
        i += 1;
    }
    proof {
        assert(input.take(n as int) =~= input);
    }
    out
}

/// The inclusive HTTP byte range that corresponds to a position.
#[derive(Clone, Debug, PartialEq, Eq)]
pub struct BytesRange {
    pub start: Option<u64>,
    pub end: Option<u64>,
}

impl BytesRange {
    /// The inclusive range of a position: the end bound of the position is
    /// exclusive, the range's is inclusive.
    pub fn from_position(pos: &BytesPosition) -> (r: Self)
        ensures
            r.start == pos.start,
            pos.end matches Some(e) ==> r.end == Some(
                if e > 0 {
                    (e - 1) as u64
                } else {
                    0u64
                },
            ),
            pos.end is None ==> r.end is None,
    {
        Self {
            start: pos.start,
            end: match pos.end {
                Some(e) => Some(
                    if e > 0 {
                        e - 1
                    } else {
                        0
                    },
                ),
                None => None,
            },
        }
    }

    /// The `Range` header value: `bytes=<first>-<last>`, with the last
    /// byte omitted for an unbounded range, and empty when the range is
    /// the whole object.
    pub fn to_string(&self) -> (r: String)
        ensures
            self.start is None && self.end is None ==> r@ == Seq::<char>::empty(),
            !(self.start is None && self.end is None) ==> r@ == "bytes="@ + spec_decimal(
                (match self.start {
                    Some(s) => s,
                    None => 0,
                }) as nat,
            ) + "-"@ + (match self.end {
                Some(e) => spec_decimal(e as nat),
                None => Seq::<char>::empty(),
            }),
    {
        match (self.start, self.end) {
            (None, None) => String::new(),
            (s, e) => {
                let start: u64 = match s {
                    Some(v) => v,
                    None => 0,
                };
                let mut out = "bytes=".to_owned();
                out.append(u64_to_string(start).as_str());
                out.append("-");
                match e {
                    Some(v) => out.append(u64_to_string(v).as_str()),
                    None => (),
                }
                out
            },
        }
    }
}

} // verus!
