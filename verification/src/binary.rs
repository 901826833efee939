//! The bit-string chromosome and its probabilistic operators.

use vstd::prelude::*;
use vstd::string::StringExecFns;

use crate::bits::{bits_of, bv_clone, bv_from_elem, bv_get, bv_len, bv_push, bv_set,
    bv_with_capacity};
use crate::rng::{rand_below, rand_bit, rand_ratio};
use crate::{Chromosome, Mutation, Prob, Recombination};

verus! {

/// The text a bit sequence renders to: `'1'` for a set bit, `'0'` for a
/// clear one, no separators.
pub open spec fn bits_text(bits: Seq<bool>) -> Seq<char> {
    Seq::new(bits.len(), |i: int| if bits[i] { '1' } else { '0' })
}

/// Whether a text consists of the characters `'0'` and `'1'` alone.
pub open spec fn is_bits_text(text: Seq<char>) -> bool {
    forall|i: int| 0 <= i < text.len() ==> text[i] == '1' || text[i] == '0'
}

/// The bit sequence a text of `'0'` and `'1'` characters denotes.
pub open spec fn text_bits(text: Seq<char>) -> Seq<bool> {
    Seq::new(text.len(), |i: int| text[i] == '1')
}

/// The Hamming weight of a bit sequence: how many of its bits are set.
pub open spec fn weight(bits: Seq<bool>) -> int
    decreases bits.len(),
{
    if bits.len() == 0 {
        0
    } else {
        weight(bits.drop_last()) + if bits.last() {
            1int
        } else {
            0int
        }
    }
}

/// The Hamming weight of any bit sequence lies between 0 and its length;
/// in particular this bounds the weight of any crossover child.
pub proof fn lemma_weight_bounds(bits: Seq<bool>)
    ensures
        0 <= weight(bits) <= bits.len(),
    decreases bits.len(),
{
    if bits.len() > 0 {
        lemma_weight_bounds(bits.drop_last());
    }
}

/// Rendering a bit sequence to text and reading it back reproduces the
/// original bits exactly.
pub proof fn lemma_bits_text_round_trip(bits: Seq<bool>)
    ensures
        is_bits_text(bits_text(bits)),
        text_bits(bits_text(bits)) == bits,
{
    assert(text_bits(bits_text(bits)) =~= bits);
}

/// An ordered, fixed-length sequence of bits.  The length is set at
/// creation and is preserved by every operator.
pub struct BinaryChromosome {
    pub bits: bit_vec::BitVec,
}

impl View for BinaryChromosome {
    type V = Seq<bool>;

    open spec fn view(&self) -> Seq<bool> {
        bits_of(self.bits)
    }
}

impl BinaryChromosome {
    /// A chromosome of `size` bits, each drawn independently by a fair
    /// coin.
    pub fn new(size: usize) -> (c: Self)
        ensures
            c@.len() == size,
    {
        let mut bits = bv_with_capacity(size);
        let mut i: usize = 0;
        while i < size
            invariant
                i <= size,
                bits_of(bits).len() == i,
            decreases size - i,
        {
            bv_push(&mut bits, rand_bit());
            i += 1;
        }
        BinaryChromosome { bits }
    }

    /// A chromosome of `size` clear bits.
    pub fn zeroes(size: usize) -> (c: Self)
        ensures
            c@.len() == size,
            forall|i: int| 0 <= i < size ==> !c@[i],
    {
        BinaryChromosome { bits: bv_from_elem(size, false) }
    }

    /// A chromosome of `size` set bits.
    pub fn ones(size: usize) -> (c: Self)
        ensures
            c@.len() == size,
            forall|i: int| 0 <= i < size ==> c@[i],
    {
        BinaryChromosome { bits: bv_from_elem(size, true) }
    }

    /// Count the set bits.
    pub fn count_ones(&self) -> (n: usize)
        ensures
            n == weight(self@),
    {
        let len = bv_len(&self.bits);
        let mut n: usize = 0;
        let mut i: usize = 0;
        while i < len
            invariant
                i <= len,
                n <= i,
                len == self@.len(),
                n == weight(self@.take(i as int)),
            decreases len - i,
        {
            let b = bv_get(&self.bits, i).unwrap();
            proof {
                assert(self@.take(i + 1).drop_last() =~= self@.take(i as int));
                assert(self@.take(i + 1).last() == self@[i as int]);
            }
            if b {
                n += 1;
            }
            i += 1;
        }
        proof {
            assert(self@.take(len as int) =~= self@);
        }
        n
    }

    /// Read a chromosome back from its text rendering: `Some` exactly when
    /// every character is `'0'` or `'1'`.
    pub fn parse(text: &str) -> (c: Option<Self>)
        ensures
            c is Some <==> is_bits_text(text@),
            c is Some ==> c.unwrap()@ == text_bits(text@),
    {
        let len = text.unicode_len();
        let mut bits = bv_with_capacity(len);
        let mut i: usize = 0;
        while i < len
            invariant
                i <= len,
                len == text@.len(),
                bits_of(bits) =~= text_bits(text@).take(i as int),
                forall|j: int| 0 <= j < i ==> text@[j] == '1' || text@[j] == '0',
            decreases len - i,
        {
            let ch = text.get_char(i);
            if ch == '1' {
                bv_push(&mut bits, true);
            } else if ch == '0' {
                bv_push(&mut bits, false);
            } else {
                return None;
            }
            proof {
                assert(bits_of(bits) =~= text_bits(text@).take(i + 1));
            }
            i += 1;
        }
        proof {
            assert(bits_of(bits) =~= text_bits(text@));
        }
        Some(BinaryChromosome { bits })
    }
}

impl Chromosome for BinaryChromosome {
    open spec fn text_spec(v: Seq<bool>) -> Seq<char> {
        bits_text(v)
    }

    fn duplicate(&self) -> (c: Self) {
        BinaryChromosome { bits: bv_clone(&self.bits) }
    }

    fn text(&self) -> (s: String) {
        let len = bv_len(&self.bits);
        let mut s = String::new();
        proof {
            reveal_strlit("0");
            reveal_strlit("1");
        }
        let mut i: usize = 0;
        while i < len
            invariant
                i <= len,
                len == self@.len(),
                s@ =~= bits_text(self@).take(i as int),
            decreases len - i,
        {
            let b = bv_get(&self.bits, i).unwrap();
            if b {
                s.append("1");
            } else {
                s.append("0");
            }
            proof {
                reveal_strlit("0");
                reveal_strlit("1");
                assert(s@ =~= bits_text(self@).take(i + 1));
            }
            i += 1;
        }
        proof {
            assert(s@ =~= bits_text(self@));
        }
        s
    }
}

/// Flips each bit of a chromosome independently with one configured
/// probability, walking a cursor from flipped bit to flipped bit.
pub struct BinaryBitMutation {
    mutate_prob: Prob,
}

impl BinaryBitMutation {
    /// The per-bit flip probability lies strictly between 0 and 1.
    #[verifier::type_invariant]
    spec fn inv(self) -> bool {
        0 < self.mutate_prob.num < self.mutate_prob.denom
    }

    /// The per-bit flip probability.
    pub closed spec fn spec_mutate_prob(&self) -> Prob {
        self.mutate_prob
    }

    /// A mutation operator flipping each bit with probability
    /// `num / denom`, which must lie strictly between 0 and 1.
    pub fn new(num: u32, denom: u32) -> (r: Self)
        requires
            0 < num < denom,
        ensures
            r.spec_mutate_prob() == (Prob { num, denom }),
    {
        BinaryBitMutation { mutate_prob: Prob::new(num, denom) }
    }

    /// The number of bits left unflipped before the next flipped one:
    /// geometrically distributed with the flip probability, capped at
    /// `cap` (a gap reaching `cap` means no further bit is flipped).
    fn sample_gap(&self, cap: usize) -> (gap: usize)
        ensures
            gap <= cap,
    {
        proof {
            use_type_invariant(self);
        }
        let num = self.mutate_prob.num;
        let denom = self.mutate_prob.denom;
        let mut gap: usize = 0;
        while gap < cap
            invariant
                gap <= cap,
                0 < num <= denom,
            decreases cap - gap,
        {
            if rand_ratio(num, denom) {
                return gap;
            }
            gap += 1;
        }
        gap
    }
}

impl Mutation for BinaryBitMutation {
    type Chromosome = BinaryChromosome;

    /// Flip each bit independently with the configured probability: a
    /// cursor advances by the sampled gap to the next flipped bit, flips
    /// it, and moves on.  The length never changes.
    fn mutate(&self, target: &mut BinaryChromosome)
        ensures
            final(target)@.len() == old(target)@.len(),
    {
        let len = bv_len(&target.bits);
        let mut i: usize = 0;
        loop
            invariant
                i <= len,
                target@.len() == old(target)@.len(),
                len == target@.len(),
            decreases len - i,
        {
            let gap = self.sample_gap(len - i);
            i += gap;
            if i >= len {
                return;
            }
            let b = bv_get(&target.bits, i).unwrap();
            bv_set(&mut target.bits, i, !b);
            i += 1;
        }
    }
}

/// Exchanges `n` segments between two parent bit strings to produce one
/// child.
pub struct BinaryNPointBitCrossover {
    n: usize,
}

impl BinaryNPointBitCrossover {
    /// The number of crossover points.
    pub closed spec fn spec_n(&self) -> usize {
        self.n
    }

    pub fn new(n: usize) -> (r: Self)
        ensures
            r.spec_n() == n,
    {
        BinaryNPointBitCrossover { n }
    }
}

/// Whether a sequence is sorted in ascending order.
pub open spec fn sorted(s: Seq<usize>) -> bool {
    forall|a: int, b: int| 0 <= a < b < s.len() ==> s[a] <= s[b]
}

/// Whether point pair `k` of `ps` covers position `i`: a pair covers the
/// positions from `ps[2k]` up to but not including `ps[2k + 1]`.
pub open spec fn pair_covers(ps: Seq<usize>, k: int, i: int) -> bool {
    ps[2 * k] <= i < ps[2 * k + 1]
}

/// Whether position `i` lies inside one of the first `count` point pairs
/// of `ps`.
pub open spec fn in_segment(ps: Seq<usize>, count: int, i: int) -> bool {
    exists|k: int| 0 <= k < count && #[trigger] pair_covers(ps, k, i)
}

/// The child an n-point crossover produces from a point list: parent 1's
/// bits outside the point pairs' segments, parent 2's bits inside them.
pub open spec fn crossed(p1: Seq<bool>, p2: Seq<bool>, ps: Seq<usize>) -> Seq<bool> {
    Seq::new(
        p1.len(),
        |i: int|
            if in_segment(ps, ps.len() as int / 2, i) {
                p2[i]
            } else {
                p1[i]
            },
    )
}

/// Counting one more pair covers a position exactly when the first pairs
/// already covered it or the new pair does.
proof fn lemma_in_segment_unfold(ps: Seq<usize>, c: int, i: int)
    requires
        0 <= c,
    ensures
        in_segment(ps, c + 1, i) <==> (in_segment(ps, c, i) || pair_covers(ps, c, i)),
{
    if in_segment(ps, c + 1, i) {
        let k = choose|k: int| 0 <= k < c + 1 && #[trigger] pair_covers(ps, k, i);
        if k < c {
            assert(in_segment(ps, c, i));
        }
    }
    if in_segment(ps, c, i) {
        let k = choose|k: int| 0 <= k < c && #[trigger] pair_covers(ps, k, i);
        assert(in_segment(ps, c + 1, i));
    }
    if pair_covers(ps, c, i) {
        assert(in_segment(ps, c + 1, i));
    }
}

/// The Hamming weight splits at any cut point.
pub proof fn lemma_weight_split(s: Seq<bool>, m: int)
    requires
        0 <= m <= s.len(),
    ensures
        weight(s) == weight(s.take(m)) + weight(s.skip(m)),
    decreases s.len(),
{
    if m == s.len() {
        assert(s.take(m) =~= s);
        assert(s.skip(m) =~= Seq::<bool>::empty());
    } else {
        let shorter = s.drop_last();
        lemma_weight_split(shorter, m);
        assert(shorter.take(m) =~= s.take(m));
        assert(shorter.skip(m) =~= s.skip(m).drop_last());
        assert(s.skip(m).last() == s.last());
    }
}

/// The weight of an all-equal sequence: its length if the bit is set,
/// zero otherwise.
pub proof fn lemma_weight_constant(s: Seq<bool>, b: bool)
    requires
        forall|i: int| 0 <= i < s.len() ==> s[i] == b,
    ensures
        weight(s) == if b {
            s.len() as int
        } else {
            0int
        },
    decreases s.len(),
{
    if s.len() > 0 {
        lemma_weight_constant(s.drop_last(), b);
    }
}

/// The total length of the first `count` point pairs' segments.
pub open spec fn segments_total(ps: Seq<usize>, count: int) -> int
    decreases count,
{
    if count <= 0 {
        0
    } else {
        segments_total(ps, count - 1) + (ps[2 * (count - 1) + 1] - ps[2 * (count - 1)])
    }
}

/// Over sorted in-bounds points the pairs' segments are disjoint, so the
/// positions they cover number exactly the segments' total length.
proof fn lemma_indicator_weight(len: nat, ps: Seq<usize>, count: int)
    requires
        0 <= count,
        2 * count <= ps.len(),
        sorted(ps),
        forall|j: int| 0 <= j < 2 * count ==> #[trigger] ps[j] <= len,
    ensures
        weight(Seq::new(len, |i: int| in_segment(ps, count, i))) == segments_total(ps, count),
    decreases count,
{
    let ind_new = Seq::new(len, |i: int| in_segment(ps, count, i));
    if count == 0 {
        assert forall|i: int| 0 <= i < len implies !ind_new[i] by {
            if in_segment(ps, 0, i) {
                let k = choose|k: int| 0 <= k < 0 && #[trigger] pair_covers(ps, k, i);
            }
        }
        lemma_weight_constant(ind_new, false);
    } else {
        let c = count - 1;
        lemma_indicator_weight(len, ps, c);
        let ind_old = Seq::new(len, |i: int| in_segment(ps, c, i));
        let a = ps[2 * c] as int;
        let b = ps[2 * c + 1] as int;
        assert(a <= b);
        assert(b <= len);

        // The new pair covers exactly [a, b); the earlier pairs all end
        // at or before `a`, so they cover nothing in [a, b).
        assert forall|i: int| 0 <= i < len implies ind_new[i] == (ind_old[i] || (a <= i < b)) by {
            lemma_in_segment_unfold(ps, c, i);
        }
        assert forall|i: int| a <= i < b && 0 <= i < len implies !ind_old[i] by {
            if in_segment(ps, c, i) {
                let k = choose|k: int| 0 <= k < c && #[trigger] pair_covers(ps, k, i);
                assert(ps[2 * k + 1] <= ps[2 * c]);
            }
        }

        lemma_weight_split(ind_new, b);
        lemma_weight_split(ind_new.take(b), a);
        lemma_weight_split(ind_old, b);
        lemma_weight_split(ind_old.take(b), a);
        assert(ind_new.take(b).take(a) =~= ind_old.take(b).take(a));
        assert(ind_new.skip(b) =~= ind_old.skip(b));
        lemma_weight_constant(ind_new.take(b).skip(a), true);
        lemma_weight_constant(ind_old.take(b).skip(a), false);
        assert(weight(ind_new) == weight(ind_old) + (b - a));
    }
}

/// An n-point crossover of an all-zero parent 1 with an all-one parent 2
/// of the same length yields a child whose Hamming weight is exactly the
/// total length of the segments taken from parent 2, a number between 0
/// and the parents' length.
pub proof fn lemma_crossover_all_zero_all_one_weight(len: nat, ps: Seq<usize>, n: int)
    requires
        0 <= n,
        valid_points(ps, len as int, len as int, n),
    ensures
        weight(crossed(Seq::new(len, |i: int| false), Seq::new(len, |i: int| true), ps))
            == segments_total(ps, ps.len() as int / 2),
        0 <= segments_total(ps, ps.len() as int / 2) <= len,
{
    let zeros = Seq::new(len, |i: int| false);
    let ones = Seq::new(len, |i: int| true);
    let count = ps.len() as int / 2;
    assert(2 * count <= ps.len());
    assert forall|j: int| 0 <= j < 2 * count implies #[trigger] ps[j] <= len by {
        if j < n {
        } else {
            assert(n % 2 == 1 && j == n);
        }
    }
    lemma_indicator_weight(len, ps, count);
    let child = crossed(zeros, ones, ps);
    assert(child =~= Seq::new(len, |i: int| in_segment(ps, count, i)));
    lemma_weight_bounds(child);
}

/// A point list the crossover of `n` points over parents of lengths
/// `len1` and `len2` can draw: the `n` drawn points ascend and lie
/// strictly inside the shorter parent, and an odd count is closed by one
/// final sentinel point at `len1`, so that pairs always come whole.
pub open spec fn valid_points(ps: Seq<usize>, len1: int, len2: int, n: int) -> bool {
    &&& ps.len() == if n % 2 == 1 {
        n + 1
    } else {
        n as int
    }
    &&& forall|j: int| 0 <= j < n ==> 1 <= #[trigger] ps[j] && ps[j] < len1 && ps[j] < len2
    &&& n % 2 == 1 ==> ps[n as int] == len1
    &&& sorted(ps)
}

/// Sort a vector of points ascending by insertion, keeping exactly the
/// same points.
fn sort_points(points: &mut Vec<usize>)
    ensures
        sorted(final(points)@),
        final(points)@.to_multiset() == old(points)@.to_multiset(),
        final(points)@.len() == old(points)@.len(),
        forall|i: int|
            0 <= i < final(points)@.len() ==> old(points)@.contains(final(points)@[i]),
{
    broadcast use vstd::seq_lib::group_to_multiset_ensures;
    broadcast use vstd::multiset::group_multiset_axioms;

    let ghost orig = points@;
    let len = points.len();
    let mut i: usize = 1;
    while i < len
        invariant
            1 <= i,
            i <= len || (len < 2 && i == 1),
            len == points@.len(),
            points@.to_multiset() == orig.to_multiset(),
            forall|a: int, b: int| 0 <= a < b < i ==> points@[a] <= points@[b],
        decreases len - i,
    {
        let mut j: usize = i;
        while j > 0 && points[j - 1] > points[j]
            invariant
                j <= i < len,
                len == points@.len(),
                points@.to_multiset() == orig.to_multiset(),
                forall|a: int, b: int|
                    0 <= a < b <= i && b != j ==> points@[a] <= points@[b],
            decreases j,
        {
            let ghost cur = points@;
            let lo = points[j - 1];
            let hi = points[j];
            points[j - 1] = hi;
            points[j] = lo;
            proof {
                broadcast use vstd::seq_lib::group_to_multiset_ensures;
                broadcast use vstd::multiset::group_multiset_axioms;

                let m = cur.to_multiset();
                assert(cur.contains(lo));
                assert(cur.to_multiset().count(lo) > 0);
                let s1 = cur.update(j - 1, hi);
                assert(s1.to_multiset() == m.insert(hi).remove(lo));
                assert(s1[j as int] == hi);
                assert(points@ == s1.update(j as int, lo));
                assert(s1.update(j as int, lo).to_multiset() == s1.to_multiset().insert(lo).remove(
                    hi,
                ));
                assert(points@.to_multiset() =~= m);
            }
            j -= 1;
        }
        i += 1;
    }
    proof {
        assert forall|i: int| 0 <= i < points@.len() implies orig.contains(points@[i]) by {
            assert(points@.to_multiset().contains(points@[i]));
        }
    }
}

impl Recombination for BinaryNPointBitCrossover {
    type Chromosome = BinaryChromosome;

    /// With at least one point both parents must have at least two bits
    /// (a point is drawn strictly inside the shorter parent); with an odd
    /// point count the closing segment reaches the end of parent 1, so
    /// parent 2 must be at least as long.
    open spec fn compatible(&self, parent1: &BinaryChromosome, parent2: &BinaryChromosome) -> bool {
        &&& self.spec_n() > 0 ==> 2 <= parent1@.len() && 2 <= parent2@.len()
        &&& self.spec_n() % 2 == 1 ==> parent1@.len() <= parent2@.len()
    }

    /// The child has the length of parent 1, and there is a point list
    /// the operator can draw — `n` ascending points strictly inside the
    /// shorter parent, an odd count closed by a sentinel at the end of
    /// parent 1 — such that the child carries parent 2's bits inside the
    /// point pairs' segments and parent 1's everywhere else.  In
    /// particular every bit comes, at its own position, from one of the
    /// two parents.
    fn recombine(&self, parent1: &BinaryChromosome, parent2: &BinaryChromosome) -> (child:
        BinaryChromosome)
        ensures
            child@.len() == parent1@.len(),
            exists|ps: Seq<usize>|
                valid_points(ps, parent1@.len() as int, parent2@.len() as int, self.spec_n() as int)
                    && child@ == crossed(parent1@, parent2@, ps),
            forall|i: int|
                0 <= i < child@.len()
                    ==> child@[i] == parent1@[i]
                        || (i < parent2@.len() && child@[i] == parent2@[i]),
    {
        let len1 = bv_len(&parent1.bits);
        let len2 = bv_len(&parent2.bits);
        let range = if len1 < len2 {
            len1
        } else {
            len2
        };

        let mut points: Vec<usize> = Vec::new();
        let mut k: usize = 0;
        while k < self.n
            invariant
                self.spec_n() > 0 ==> 2 <= range <= len1 && range <= len2,
                k <= self.spec_n(),
                points@.len() == k,
                forall|p: int|
                    0 <= p < points@.len() ==> 1 <= #[trigger] points@[p] && points@[p] < range,
            decreases self.n - k,
        {
            points.push(1 + rand_below(range - 1));
            k += 1;
        }
        sort_points(&mut points);

        if self.n % 2 == 1 {
            // Close the last open segment at the end of parent 1.
            let ghost before = points@;
            points.push(len1);
            proof {
                assert forall|a: int, b: int| 0 <= a < b < points@.len() implies points@[a]
                    <= points@[b] by {
                    if b < points@.len() - 1 {
                        assert(before[a] <= before[b]);
                    } else {
                        assert(before.contains(points@[a]));
                    }
                }
            }
        }
        let ghost ps = points@;
        proof {
            assert(valid_points(
                ps,
                parent1@.len() as int,
                parent2@.len() as int,
                self.spec_n() as int,
            ));
        }

        let mut child = BinaryChromosome { bits: bv_clone(&parent1.bits) };
        let pairs = points.len() / 2;
        let mut pi: usize = 0;
        while pi < pairs
            invariant
                ps == points@,
                sorted(ps),
                pairs == ps.len() / 2,
                ps.len() <= usize::MAX,
                pi <= pairs,
                child@.len() == len1 == parent1@.len(),
                len2 == parent2@.len(),
                forall|p: int| 0 <= p < ps.len() ==> #[trigger] ps[p] <= len1 && ps[p] <= len2,
                forall|i: int|
                    0 <= i < len1 ==> child@[i] == (if in_segment(ps, pi as int, i) {
                        parent2@[i]
                    } else {
                        parent1@[i]
                    }),
            decreases pairs - pi,
        {
            proof {
                assert(2 * pairs <= ps.len());
            }
            let from = points[pi * 2];
            let to = points[pi * 2 + 1];
            let mut j = from;
            while j < to
                invariant
                    ps == points@,
                    from == ps[2 * (pi as int)] && to == ps[2 * (pi as int) + 1],
                    pi < pairs == ps.len() / 2,
                    from <= j <= to,
                    to <= len1 && to <= len2,
                    child@.len() == len1 == parent1@.len(),
                    len2 == parent2@.len(),
                    forall|i: int|
                        0 <= i < len1 ==> child@[i] == (if in_segment(ps, pi as int, i) || (from
                            <= i < j) {
                            parent2@[i]
                        } else {
                            parent1@[i]
                        }),
                decreases to - j,
            {
                let b = bv_get(&parent2.bits, j).unwrap();
                bv_set(&mut child.bits, j, b);
                j += 1;
            }
            proof {
                assert forall|i: int| 0 <= i < len1 implies child@[i] == (if in_segment(
                    ps,
                    pi + 1,
                    i,
                ) {
                    parent2@[i]
                } else {
                    parent1@[i]
                }) by {
                    if in_segment(ps, pi + 1, i) {
                        let k = choose|k: int| 0 <= k < pi + 1 && #[trigger] pair_covers(ps, k, i);
                        if k == pi {
                            assert(from <= i < to);
                        } else {
                            assert(in_segment(ps, pi as int, i));
                        }
                    } else {
                        assert(!in_segment(ps, pi as int, i));
                        assert(!(from <= i < to)) by {
                            if from <= i < to {
                                assert(pair_covers(ps, pi as int, i));
                                assert(in_segment(ps, pi + 1, i));
                            }
                        }
                    }
                }
            }
            pi += 1;
        }
        proof {
            assert(child@ =~= crossed(parent1@, parent2@, ps));
            assert forall|i: int|
                0 <= i < child@.len() implies child@[i] == parent1@[i] || (i < parent2@.len()
                && child@[i] == parent2@[i]) by {
                if in_segment(ps, ps.len() as int / 2, i) {
                    let k = choose|k: int|
                        0 <= k < ps.len() as int / 2 && #[trigger] pair_covers(ps, k, i);
                    assert(ps[2 * k + 1] <= len2);
                }
            }
        }
        child
    }
}

} // verus!
