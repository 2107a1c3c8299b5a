//! The ordered leaves of a commitment, and their padding to a power of two.

use vstd::prelude::*;
use vstd::slice::slice_to_vec;

verus! {

/// Whether `n` is a power of two (1, 2, 4, ...).
pub open spec fn is_pow2(n: nat) -> bool
    decreases n,
{
    n == 1 || (n > 1 && n % 2 == 0 && is_pow2(n / 2))
}

/// The smallest power of two that is at least `n`; 1 for `n == 0`.
pub open spec fn next_pow2(n: nat) -> nat
    decreases n,
{
    if n <= 1 {
        1
    } else {
        2 * next_pow2((n + 1) / 2)
    }
}

/// The leaf that padding appends: the empty byte string.
pub open spec fn filler() -> Seq<u8> {
    Seq::empty()
}

/// The byte strings that a vector of byte vectors holds, in order.
pub open spec fn byte_strings(items: Seq<Vec<u8>>) -> Seq<Seq<u8>> {
    Seq::new(items.len(), |i: int| items[i]@)
}

/// `leaves` followed by as many fillers as bring its length to the next
/// power of two.
pub open spec fn padded(leaves: Seq<Seq<u8>>) -> Seq<Seq<u8>> {
    leaves + Seq::new((next_pow2(leaves.len()) - leaves.len()) as nat, |i: int| filler())
}

/// Of two distinct powers of two, the larger is at least twice the smaller.
pub proof fn lemma_pow2_gap(a: nat, b: nat)
    requires
        is_pow2(a),
        is_pow2(b),
        a < b,
    ensures
        2 * a <= b,
    decreases a,
{
    if a > 1 {
        lemma_pow2_gap(a / 2, b / 2);
    }
}

/// A power of two `p` with `p >= n` whose half is below `n` is `next_pow2(n)`.
pub proof fn lemma_next_pow2_unique(p: nat, n: nat)
    requires
        is_pow2(p),
        n <= p,
        p == 1 || p / 2 < n,
    ensures
        p == next_pow2(n),
    decreases p,
{
    if p > 1 {
        lemma_next_pow2_unique(p / 2, (n + 1) / 2);
    }
}

/// `next_pow2(n)` is a power of two, is at least `n`, and no smaller power of
/// two is at least `n`. On a power of two it is the identity, and on 0 it is 1.
pub proof fn lemma_next_pow2_is_least(n: nat)
    ensures
        is_pow2(next_pow2(n)),
        n <= next_pow2(n),
        forall|p: nat| is_pow2(p) && n <= p ==> next_pow2(n) <= p,
        is_pow2(n) ==> next_pow2(n) == n,
        n == 0 ==> next_pow2(n) == 1,
        next_pow2(n) == 1 || next_pow2(n) / 2 < n,
    decreases n,
{
    if n > 1 {
        lemma_next_pow2_is_least((n + 1) / 2);
    }
    let q = next_pow2(n);
    assert forall|p: nat| is_pow2(p) && n <= p implies q <= p by {
        if p < q {
            lemma_pow2_gap(p, q);
        }
    }
    if is_pow2(n) {
        lemma_next_pow2_unique(n, n);
    }
}

/// Padding brings the number of leaves to the smallest power of two that is
/// at least the number before, keeps the leaves and their order, and appends
/// fillers only. It changes nothing where the number is a power of two
/// already, and turns the empty sequence into a single filler.
pub proof fn lemma_padding(leaves: Seq<Seq<u8>>)
    ensures
        padded(leaves).len() == next_pow2(leaves.len()),
        is_pow2(padded(leaves).len()),
        forall|p: nat| is_pow2(p) && leaves.len() <= p ==> padded(leaves).len() <= p,
        padded(leaves).subrange(0, leaves.len() as int) == leaves,
        forall|i: int| leaves.len() <= i < padded(leaves).len() ==> padded(leaves)[i] == filler(),
        is_pow2(leaves.len()) ==> padded(leaves) == leaves,
        leaves.len() == 0 ==> padded(leaves) == seq![filler()],
{
    lemma_next_pow2_is_least(leaves.len());
    assert(padded(leaves).subrange(0, leaves.len() as int) =~= leaves);
    if is_pow2(leaves.len()) {
        assert(padded(leaves) =~= leaves);
    }
    if leaves.len() == 0 {
        assert(padded(leaves) =~= seq![filler()]);
    }
}

/// The smallest power of two that is at least `n`, or `None` where it does not
/// fit in 64 bits.
pub fn smallest_pow2_at_least(n: u64) -> (out: Option<u64>)
    ensures
        out == (if next_pow2(n as nat) <= u64::MAX {
            Some(next_pow2(n as nat) as u64)
        } else {
            None
        }),
{
    let mut p: u64 = 1;
    while p < n
        invariant
            is_pow2(p as nat),
            p == 1 || p / 2 < n,
        decreases u64::MAX - p,
    {
        if p > u64::MAX / 2 {
            proof {
                lemma_next_pow2_is_least(n as nat);
                if next_pow2(n as nat) <= u64::MAX {
                    lemma_pow2_gap(p as nat, next_pow2(n as nat));
                }
            }
            return None;
        }
        p = p * 2;
        assert(is_pow2(p as nat));
    }
    proof {
        lemma_next_pow2_unique(p as nat, n as nat);
    }
    Some(p)
}

/// Whether `n` is a power of two.
pub fn is_power_of_two(n: u64) -> (out: bool)
    ensures
        out == is_pow2(n as nat),
{
    proof {
        lemma_next_pow2_is_least(n as nat);
    }
    match smallest_pow2_at_least(n) {
        Some(p) => p == n,
        None => false,
    }
}

/// An ordered sequence of leaves. Leaves are only ever appended; `pad` appends
/// fillers until the count is a power of two.
#[derive(Debug, Clone)]
pub struct LeafSet {
    leaves: Vec<Vec<u8>>,
}

impl View for LeafSet {
    type V = Seq<Seq<u8>>;

    closed spec fn view(&self) -> Seq<Seq<u8>> {
        byte_strings(self.leaves@)
    }
}

impl LeafSet {
    /// A leaf set that holds `initial`, in order.
    pub fn new(initial: Vec<Vec<u8>>) -> (out: LeafSet)
        ensures
            out@ == byte_strings(initial@),
    {
        LeafSet { leaves: initial }
    }

    /// The number of leaves.
    pub fn len(&self) -> (out: usize)
        ensures
            out == self@.len(),
    {
        self.leaves.len()
    }

    /// The leaf at position `index`.
    pub fn leaf(&self, index: usize) -> (out: &[u8])
        requires
            index < self@.len(),
        ensures
            out@ == self@[index as int],
    {
        self.leaves[index].as_slice()
    }

    /// Appends one leaf.
    pub fn push(&mut self, leaf: Vec<u8>)
        ensures
            final(self)@ == old(self)@.push(leaf@),
    {
        self.leaves.push(leaf);
        assert(self@ =~= old(self)@.push(leaf@));
    }

    /// Appends the leaves of `more`, in order.
    pub fn push_vec(&mut self, more: Vec<Vec<u8>>)
        ensures
            final(self)@ == old(self)@ + byte_strings(more@),
    {
        let ghost added = more@;
        let mut rest = more;
        self.leaves.append(&mut rest);
        assert(self@ =~= old(self)@ + byte_strings(added));
    }

    /// Whether the number of leaves is a power of two.
    pub fn is_padded(&self) -> (out: bool)
        ensures
            out == is_pow2(self@.len()),
    {
        is_power_of_two(self.leaves.len() as u64)
    }

    /// Appends fillers until the number of leaves is the smallest power of two
    /// that is at least the number before; none where it already is one, and
    /// one filler to an empty set.
    pub fn pad(&mut self)
        requires
            next_pow2(old(self)@.len()) <= usize::MAX,
        ensures
            final(self)@ == padded(old(self)@),
            final(self)@.len() == next_pow2(old(self)@.len()),
    {
        let n: usize = self.leaves.len();
        proof {
            lemma_next_pow2_is_least(n as nat);
        }
        let target: usize = match smallest_pow2_at_least(n as u64) {
            Some(p) => p as usize,
            None => n,
        };
        while self.leaves.len() < target
            invariant
                n <= self.leaves.len() <= target,
                target == next_pow2(n as nat),
                n == old(self)@.len(),
                self@ == old(self)@ + Seq::new((self.leaves.len() - n) as nat, |i: int| filler()),
            decreases target - self.leaves.len(),
        {
            let ghost before = self@;
            self.leaves.push(Vec::new());
            assert(self@ =~= before.push(filler()));
            assert(self@ =~= old(self)@ + Seq::new(
                (self.leaves.len() - n) as nat,
                |i: int| filler(),
            ));
        }
    }
}

/// The two cells of a row that become leaves: its first and its third column,
/// already rendered to bytes.
#[derive(Debug, Clone)]
pub struct RowCells {
    pub first: Vec<u8>,
    pub third: Vec<u8>,
}

/// The leaves of a plane's rows: for each row in order, its first cell and
/// then its third.
pub open spec fn row_leaves(rows: Seq<RowCells>) -> Seq<Seq<u8>> {
    Seq::new(
        2 * rows.len(),
        |i: int|
            if i % 2 == 0 {
                rows[i / 2].first@
            } else {
                rows[i / 2].third@
            },
    )
}

/// The leaves of a sequence of planes: those of each plane, in order.
pub open spec fn plane_leaves(planes: Seq<Vec<RowCells>>) -> Seq<Seq<u8>>
    decreases planes.len(),
{
    if planes.len() == 0 {
        Seq::empty()
    } else {
        plane_leaves(planes.drop_last()) + row_leaves(planes.last()@)
    }
}

/// The leaves of a commitment in their fixed order: the roster's records,
/// then the audited ballots, then the cells of every row of every plane.
pub open spec fn collected(
    roster: Seq<Vec<u8>>,
    audited: Seq<Vec<u8>>,
    planes: Seq<Vec<RowCells>>,
) -> Seq<Seq<u8>> {
    byte_strings(roster) + byte_strings(audited) + plane_leaves(planes)
}

fn push_all(set: &mut LeafSet, items: &Vec<Vec<u8>>)
    ensures
        final(set)@ == old(set)@ + byte_strings(items@),
{
    let mut i: usize = 0;
    while i < items.len()
        invariant
            i <= items.len(),
            set@ == old(set)@ + byte_strings(items@.subrange(0, i as int)),
        decreases items.len() - i,
    {
        set.push(slice_to_vec(items[i].as_slice()));
        i = i + 1;
        assert(set@ =~= old(set)@ + byte_strings(items@.subrange(0, i as int)));
    }
    assert(items@.subrange(0, items.len() as int) =~= items@);
}

fn push_rows(set: &mut LeafSet, rows: &Vec<RowCells>)
    ensures
        final(set)@ == old(set)@ + row_leaves(rows@),
{
    let mut i: usize = 0;
    while i < rows.len()
        invariant
            i <= rows.len(),
            set@ == old(set)@ + row_leaves(rows@.subrange(0, i as int)),
        decreases rows.len() - i,
    {
        set.push(slice_to_vec(rows[i].first.as_slice()));
        set.push(slice_to_vec(rows[i].third.as_slice()));
        i = i + 1;
        assert(set@ =~= old(set)@ + row_leaves(rows@.subrange(0, i as int)));
    }
    assert(rows@.subrange(0, rows.len() as int) =~= rows@);
}

/// Collects the leaves of a commitment in their fixed order. The result is
/// not yet padded.
pub fn collect_leaves(
    roster: &Vec<Vec<u8>>,
    audited: &Vec<Vec<u8>>,
    planes: &Vec<Vec<RowCells>>,
) -> (out: LeafSet)
    ensures
        out@ == collected(roster@, audited@, planes@),
{
    let mut set = LeafSet::new(Vec::new());
    push_all(&mut set, roster);
    push_all(&mut set, audited);
    let ghost base = set@;
    assert(base =~= byte_strings(roster@) + byte_strings(audited@));
    let mut i: usize = 0;
    while i < planes.len()
        invariant
            i <= planes.len(),
            set@ == base + plane_leaves(planes@.subrange(0, i as int)),
        decreases planes.len() - i,
    {
        push_rows(&mut set, &planes[i]);
        proof {
            let next = planes@.subrange(0, i + 1);
            assert(next.drop_last() =~= planes@.subrange(0, i as int));
            assert(next.last() == planes@[i as int]);
            assert(set@ =~= base + plane_leaves(next));
        }
        i = i + 1;
    }
    assert(planes@.subrange(0, planes.len() as int) =~= planes@);
    set
}

} // verus!
