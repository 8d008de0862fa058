//! K-mer windows over byte sequences and a table that counts them.

use vstd::prelude::*;

verus! {

/// Number of windows of width `k` over `s`, sliding by one: none when `k` is
/// zero or wider than `s`.
pub open spec fn window_count(s: Seq<u8>, k: nat) -> nat {
    if k == 0 || k > s.len() {
        0
    } else {
        (s.len() - k + 1) as nat
    }
}

/// How many of the first `n` windows of width `k` over `s` equal `w`.
pub open spec fn occurrences_upto(s: Seq<u8>, k: nat, w: Seq<u8>, n: nat) -> nat
    decreases n,
{
    if n == 0 {
        0
    } else {
        occurrences_upto(s, k, w, (n - 1) as nat) + if s.subrange(n - 1, n - 1 + k) == w {
            1nat
        } else {
            0nat
        }
    }
}

/// How many windows of width `k` over `s` equal `w`.
pub open spec fn occurrences(s: Seq<u8>, k: nat, w: Seq<u8>) -> nat {
    occurrences_upto(s, k, w, window_count(s, k))
}

/// The count of `w` in a count map: zero where it is absent.
pub open spec fn count_in(m: Map<Seq<u8>, nat>, w: Seq<u8>) -> nat {
    if m.contains_key(w) {
        m[w]
    } else {
        0
    }
}

/// Counts of the first `n` windows of width `k` over `s`.
pub open spec fn profile_upto(s: Seq<u8>, k: nat, n: nat) -> Map<Seq<u8>, nat> {
    Map::new(|w: Seq<u8>| occurrences_upto(s, k, w, n) > 0, |w: Seq<u8>| occurrences_upto(s, k, w, n))
}

/// The k-mer profile of `s`: every window of width `k` with the number of
/// positions at which it occurs.
pub open spec fn profile(s: Seq<u8>, k: nat) -> Map<Seq<u8>, nat> {
    profile_upto(s, k, window_count(s, k))
}

/// Two count maps added key by key.
pub open spec fn merged(a: Map<Seq<u8>, nat>, b: Map<Seq<u8>, nat>) -> Map<Seq<u8>, nat> {
    Map::new(
        |w: Seq<u8>| a.contains_key(w) || b.contains_key(w),
        |w: Seq<u8>| count_in(a, w) + count_in(b, w),
    )
}

/// `w` is in `m` with count `c`, and no count in `m` is larger.
pub open spec fn is_most_frequent(m: Map<Seq<u8>, nat>, w: Seq<u8>, c: nat) -> bool {
    &&& m.contains_key(w)
    &&& m[w] == c
    &&& forall|v: Seq<u8>| #[trigger] m.contains_key(v) ==> m[v] <= c
}

/// `es` names each key of `m` exactly once, with its count.
pub open spec fn lists_exactly(es: Seq<(Vec<u8>, usize)>, m: Map<Seq<u8>, nat>) -> bool {
    &&& forall|j: int| 0 <= j < es.len() ==> #[trigger] m.contains_key(es[j].0@) && m[es[j].0@] == es[j].1 as nat
    &&& forall|a: int, b: int| 0 <= a < b < es.len() ==> #[trigger] es[a].0@ != #[trigger] es[b].0@
    &&& forall|w: Seq<u8>| #[trigger] m.contains_key(w) ==> exists|j: int| 0 <= j < es.len() && es[j].0@ == w
}

/// Some entry of `es` has key `w`.
pub open spec fn listed(es: Seq<(Vec<u8>, usize)>, w: Seq<u8>) -> bool {
    exists|j: int| 0 <= j < es.len() && es[j].0@ == w
}

/// `es` holds distinct entries of `m`, largest count first, and a key of `m`
/// that it leaves out is counted no more than the last entry, which happens
/// only where `es` already has `n` entries.
pub open spec fn is_top(es: Seq<(Vec<u8>, usize)>, m: Map<Seq<u8>, nat>, n: nat) -> bool {
    &&& es.len() <= n
    &&& forall|j: int| 0 <= j < es.len() ==> #[trigger] m.contains_key(es[j].0@) && m[es[j].0@] == es[j].1 as nat
    &&& forall|a: int, b: int| 0 <= a < b < es.len() ==> #[trigger] es[a].0@ != #[trigger] es[b].0@
    &&& forall|a: int, b: int| 0 <= a < b < es.len() ==> #[trigger] es[a].1 >= #[trigger] es[b].1
    &&& forall|w: Seq<u8>| #[trigger] m.contains_key(w) ==> listed(es, w) || (es.len() == n && forall|j: int|
        0 <= j < es.len() ==> m[w] <= #[trigger] es[j].1)
}

/// Every key of a count map is counted at least once.
pub open spec fn all_positive(m: Map<Seq<u8>, nat>) -> bool {
    forall|w: Seq<u8>| #[trigger] m.contains_key(w) ==> m[w] > 0
}

/// Sum of the counts in `s`.
pub open spec fn sum_of(s: Seq<usize>) -> nat
    decreases s.len(),
{
    if s.len() == 0 {
        0
    } else {
        sum_of(s.drop_last()) + s.last() as nat
    }
}

proof fn lemma_sum_of_push(s: Seq<usize>, v: usize)
    ensures
        sum_of(s.push(v)) == sum_of(s) + v,
{
    assert(s.push(v).drop_last() =~= s);
}

proof fn lemma_sum_of_update(s: Seq<usize>, i: int, v: usize)
    requires
        0 <= i < s.len(),
    ensures
        sum_of(s.update(i, v)) + s[i] == sum_of(s) + v,
    decreases s.len(),
{
    if i == s.len() - 1 {
        assert(s.update(i, v).drop_last() =~= s.drop_last());
    } else {
        assert(s.update(i, v).drop_last() =~= s.drop_last().update(i, v));
        lemma_sum_of_update(s.drop_last(), i, v);
    }
}

proof fn lemma_element_le_sum(s: Seq<usize>, i: int)
    requires
        0 <= i < s.len(),
    ensures
        s[i] <= sum_of(s),
    decreases s.len(),
{
    if i < s.len() - 1 {
        lemma_element_le_sum(s.drop_last(), i);
    }
}

/// A table of k-mer counts: distinct keys, each with a positive count.
pub struct KmerTable {
    keys: Vec<Vec<u8>>,
    counts: Vec<usize>,
    model: Ghost<Map<Seq<u8>, nat>>,
}

impl View for KmerTable {
    type V = Map<Seq<u8>, nat>;

    closed spec fn view(&self) -> Map<Seq<u8>, nat> {
        self.model@
    }
}

impl KmerTable {
    /// The keys are distinct, each is in the model with its count, the model
    /// holds nothing else, and every count is positive.
    pub closed spec fn well_formed(&self) -> bool {
        &&& self.keys@.len() == self.counts@.len()
        &&& forall|i: int, j: int|
            0 <= i < j < self.keys@.len() ==> #[trigger] self.keys@[i]@ != #[trigger] self.keys@[j]@
        &&& forall|i: int|
            0 <= i < self.keys@.len() ==> {
                &&& self.model@.contains_key(#[trigger] self.keys@[i]@)
                &&& self.model@[self.keys@[i]@] == self.counts@[i] as nat
                &&& self.counts@[i] > 0
            }
        &&& forall|w: Seq<u8>|
            #[trigger] self.model@.contains_key(w) ==> exists|i: int|
                0 <= i < self.keys@.len() && self.keys@[i]@ == w
        &&& self.model@.dom().finite()
        &&& self.model@.dom().len() == self.keys@.len()
    }

    /// Sum of all counts in the table.
    pub closed spec fn total(&self) -> nat {
        sum_of(self.counts@)
    }

    /// Number of distinct keys in the table.
    pub closed spec fn size(&self) -> nat {
        self.keys@.len()
    }

    /// An empty table.
    pub fn new() -> (r: Self)
        ensures
            r.well_formed(),
            r@ == Map::<Seq<u8>, nat>::empty(),
            r.total() == 0,
            r.size() == 0,
    {
        KmerTable { keys: Vec::new(), counts: Vec::new(), model: Ghost(Map::empty()) }
    }

    /// Every key of a well-formed table is counted at least once.
    pub proof fn lemma_positive(&self)
        requires
            self.well_formed(),
        ensures
            all_positive(self@),
            self@.dom().finite(),
            self@.dom().len() == self.size(),
    {
        assert forall|w: Seq<u8>| #[trigger] self@.contains_key(w) implies self@[w] > 0 by {
            let i = choose|i: int| 0 <= i < self.keys@.len() && self.keys@[i]@ == w;
        }
    }

    /// Position of `key` among the keys, if it is there.
    fn find(&self, key: &[u8]) -> (r: Option<usize>)
        requires
            self.well_formed(),
        ensures
            match r {
                Some(i) => i < self.keys@.len() && self.keys@[i as int]@ == key@,
                None => !self@.contains_key(key@),
            },
    {
        let mut i: usize = 0;
        while i < self.keys.len()
            invariant
                self.well_formed(),
                i <= self.keys@.len(),
                forall|j: int| 0 <= j < i ==> self.keys@[j]@ != key@,
            decreases self.keys@.len() - i,
        {
            if bytes_equal(self.keys[i].as_slice(), key) {
                return Some(i);
            }
            i += 1;
        }
        None
    }

    /// Adds `n` to the count of `key`, inserting it where it is absent.
    pub fn add(&mut self, key: &[u8], n: usize)
        requires
            old(self).well_formed(),
            n > 0,
            old(self).total() + n <= usize::MAX,
        ensures
            final(self).well_formed(),
            final(self)@ == old(self)@.insert(key@, (count_in(old(self)@, key@) + n) as nat),
            final(self).total() == old(self).total() + n,
    {
        match self.find(key) {
            Some(i) => {
                proof {
                    lemma_element_le_sum(self.counts@, i as int);
                    lemma_sum_of_update(self.counts@, i as int, (self.counts@[i as int] + n) as usize);
                }
                let c = self.counts[i];
                self.counts.set(i, c + n);
                self.model = Ghost(self.model@.insert(key@, (c + n) as nat));
                assert(self.model@.dom() =~= old(self).model@.dom());
            },
            None => {
                proof {
                    lemma_sum_of_push(self.counts@, n);
                }
                let copy = copy_bytes(key);
                self.keys.push(copy);
                self.counts.push(n);
                self.model = Ghost(self.model@.insert(key@, n as nat));
                assert forall|w: Seq<u8>| #[trigger] self.model@.contains_key(w) implies exists|i: int|
                    0 <= i < self.keys@.len() && self.keys@[i]@ == w by {
                    if w != key@ {
                        let i = choose|i: int| 0 <= i < old(self).keys@.len() && old(self).keys@[i]@ == w;
                        assert(self.keys@[i]@ == w);
                    } else {
                        assert(self.keys@[self.keys@.len() - 1]@ == w);
                    }
                }
            },
        }
    }
    /// Adds every window of width `k` over `s` once: nothing when `k` is zero or
    /// wider than `s`.
    pub fn add_windows(&mut self, s: &[u8], k: usize)
        requires
            old(self).well_formed(),
            old(self).total() + window_count(s@, k as nat) <= usize::MAX,
        ensures
            final(self).well_formed(),
            final(self)@ == merged(old(self)@, profile(s@, k as nat)),
            final(self).total() == old(self).total() + window_count(s@, k as nat),
    {
        let ghost start = self@;
        if k == 0 || k > s.len() {
            assert(merged(start, profile(s@, k as nat)) =~= start);
            return;
        }
        let last: usize = s.len() - k + 1;
        let mut n: usize = 0;
        assert(merged(start, profile_upto(s@, k as nat, 0)) =~= start);
        while n < last
            invariant
                0 < k <= s@.len(),
                last == window_count(s@, k as nat),
                last == s@.len() - k + 1,
                s@.len() <= usize::MAX,
                old(self).total() + window_count(s@, k as nat) <= usize::MAX,
                n <= last,
                self.well_formed(),
                self@ == merged(start, profile_upto(s@, k as nat, n as nat)),
                self.total() + (last - n) == old(self).total() + window_count(s@, k as nat),
            decreases last - n,
        {
            let w = vstd::slice::slice_subrange(s, n, n + k);
            self.add(w, 1);
            proof {
                let kk = k as nat;
                let a = merged(start, profile_upto(s@, kk, n as nat));
                let b = merged(start, profile_upto(s@, kk, (n + 1) as nat));
                assert(w@ == s@.subrange(n as int, n + k));
                assert forall|x: Seq<u8>| #![auto] b.contains_key(x) == self@.contains_key(x) && (
                    b.contains_key(x) ==> b[x] == self@[x]) by {
                    assert(occurrences_upto(s@, kk, x, (n + 1) as nat) == occurrences_upto(
                        s@,
                        kk,
                        x,
                        n as nat,
                    ) + if s@.subrange(n as int, n + k) == x {
                        1nat
                    } else {
                        0nat
                    });
                }
                assert(self@ =~= b);
            }
            n += 1;
        }
    }

    /// The count of `key`, if the table holds it.
    pub fn get(&self, key: &[u8]) -> (r: Option<usize>)
        requires
            self.well_formed(),
        ensures
            r == (if self@.contains_key(key@) {
                Some(self@[key@] as usize)
            } else {
                None::<usize>
            }),
    {
        match self.find(key) {
            Some(i) => Some(self.counts[i]),
            None => None,
        }
    }

    /// Adds every count of `other` to this table and leaves `other` empty.
    pub fn merge_from(&mut self, other: &mut KmerTable)
        requires
            old(self).well_formed(),
            old(other).well_formed(),
            old(self).total() + old(other).total() <= usize::MAX,
        ensures
            final(self).well_formed(),
            final(self)@ == merged(old(self)@, old(other)@),
            final(self).total() == old(self).total() + old(other).total(),
            final(other).well_formed(),
            final(other)@ == Map::<Seq<u8>, nat>::empty(),
            final(other).total() == 0,
    {
        let ghost start = self@;
        let ghost om = other@;
        let mut i: usize = 0;
        assert(merged(start, om.restrict(Set::new(|w: Seq<u8>| exists|j: int| 0 <= j < 0 && other.keys@[j]@ == w))) =~= start);
        while i < other.keys.len()
            invariant
                other.well_formed(),
                other@ == om,
                i <= other.keys@.len(),
                self.well_formed(),
                self@ == merged(start, om.restrict(Set::new(|w: Seq<u8>| exists|j: int| 0 <= j < i && other.keys@[j]@ == w))),
                self.total() == old(self).total() + sum_of(other.counts@.subrange(0, i as int)),
                old(self).total() + other.total() <= usize::MAX,
            decreases other.keys@.len() - i,
        {
            proof {
                lemma_prefix_sum(other.counts@, i as int);
            }
            let c = other.counts[i];
            self.add(other.keys[i].as_slice(), c);
            proof {
                let ra = Set::new(|w: Seq<u8>| exists|j: int| 0 <= j < i && other.keys@[j]@ == w);
                let rb = Set::new(|w: Seq<u8>| exists|j: int| 0 <= j < i + 1 && other.keys@[j]@ == w);
                let ki = other.keys@[i as int]@;
                assert(!ra.contains(ki)) by {
                    if ra.contains(ki) {
                        let j = choose|j: int| 0 <= j < i && other.keys@[j]@ == ki;
                        assert(other.keys@[j]@ != other.keys@[i as int]@);
                    }
                }
                assert(rb =~= ra.insert(ki)) by {
                    assert forall|w: Seq<u8>| rb.contains(w) implies #[trigger] ra.insert(ki).contains(w) by {
                        let j = choose|j: int| 0 <= j < i + 1 && other.keys@[j]@ == w;
                        if j < i {
                            assert(ra.contains(w));
                        }
                    }
                    assert forall|w: Seq<u8>| ra.insert(ki).contains(w) implies #[trigger] rb.contains(w) by {
                        if w == ki {
                            assert(0 <= i < i + 1 && other.keys@[i as int]@ == w);
                        } else {
                            let j = choose|j: int| 0 <= j < i && other.keys@[j]@ == w;
                            assert(0 <= j < i + 1 && other.keys@[j]@ == w);
                        }
                    }
                }
                assert(self@ =~= merged(start, om.restrict(rb)));
                assert(other.counts@.subrange(0, i + 1).drop_last() =~= other.counts@.subrange(0, i as int));
            }
            i += 1;
        }
        proof {
            let all = Set::new(|w: Seq<u8>| exists|j: int| 0 <= j < i && other.keys@[j]@ == w);
            assert(om.restrict(all) =~= om) by {
                assert forall|w: Seq<u8>| om.contains_key(w) implies #[trigger] all.contains(w) by {
                    let j = choose|j: int| 0 <= j < other.keys@.len() && other.keys@[j]@ == w;
                }
            }
            assert(other.counts@.subrange(0, i as int) =~= other.counts@);
        }
        *other = KmerTable::new();
    }

    /// Number of distinct k-mers in the table.
    pub fn len(&self) -> (r: usize)
        requires
            self.well_formed(),
        ensures
            r == self.size(),
            r == self@.dom().len(),
    {
        self.keys.len()
    }

    /// Whether the table holds no k-mer.
    pub fn is_empty(&self) -> (r: bool)
        requires
            self.well_formed(),
        ensures
            r == (self@ == Map::<Seq<u8>, nat>::empty()),
    {
        proof {
            if self.keys@.len() > 0 {
                assert(self@.contains_key(self.keys@[0]@));
            } else {
                assert(self@ =~= Map::<Seq<u8>, nat>::empty());
            }
        }
        self.keys.len() == 0
    }

    /// Sum of all counts.
    pub fn total_count(&self) -> (r: usize)
        requires
            self.well_formed(),
            self.total() <= usize::MAX,
        ensures
            r == self.total(),
    {
        let mut sum: usize = 0;
        let mut i: usize = 0;
        while i < self.counts.len()
            invariant
                i <= self.counts@.len(),
                self.total() <= usize::MAX,
                sum == sum_of(self.counts@.subrange(0, i as int)),
            decreases self.counts@.len() - i,
        {
            proof {
                lemma_prefix_sum(self.counts@, i as int);
            }
            sum = sum + self.counts[i];
            i += 1;
        }
        assert(self.counts@.subrange(0, i as int) =~= self.counts@);
        sum
    }

    /// A k-mer with the largest count, and that count; `None` when the table is
    /// empty. Among several k-mers with the largest count any one may come back.
    pub fn most_frequent(&self) -> (r: Option<(Vec<u8>, usize)>)
        requires
            self.well_formed(),
        ensures
            r.is_none() == (self.size() == 0),
            r matches Some((w, c)) ==> is_most_frequent(self@, w@, c as nat),
    {
        if self.keys.len() == 0 {
            return None;
        }
        let mut best: usize = 0;
        let mut i: usize = 1;
        while i < self.keys.len()
            invariant
                self.well_formed(),
                0 < self.keys@.len(),
                best < i <= self.keys@.len(),
                forall|j: int| 0 <= j < i ==> self.counts@[j] <= self.counts@[best as int],
            decreases self.keys@.len() - i,
        {
            if self.counts[i] > self.counts[best] {
                best = i;
            }
            i += 1;
        }
        let w = copy_bytes(self.keys[best].as_slice());
        proof {
            assert forall|v: Seq<u8>| #[trigger] self@.contains_key(v) implies self@[v] <= self.counts@[best as int] by {
                let j = choose|j: int| 0 <= j < self.keys@.len() && self.keys@[j]@ == v;
            }
        }
        Some((w, self.counts[best]))
    }

    /// Every k-mer of the table with its count, each once.
    pub fn entries(&self) -> (r: Vec<(Vec<u8>, usize)>)
        requires
            self.well_formed(),
        ensures
            lists_exactly(r@, self@),
    {
        let mut r: Vec<(Vec<u8>, usize)> = Vec::new();
        let mut i: usize = 0;
        while i < self.keys.len()
            invariant
                self.well_formed(),
                i <= self.keys@.len(),
                r@.len() == i,
                forall|j: int| 0 <= j < i ==> (#[trigger] r@[j]).0@ == self.keys@[j]@ && r@[j].1 == self.counts@[j],
            decreases self.keys@.len() - i,
        {
            let w = copy_bytes(self.keys[i].as_slice());
            r.push((w, self.counts[i]));
            i += 1;
        }
        proof {
            assert forall|w: Seq<u8>| #[trigger] self@.contains_key(w) implies exists|j: int| 0 <= j < r@.len() && r@[j].0@ == w by {
                let j = choose|j: int| 0 <= j < self.keys@.len() && self.keys@[j]@ == w;
                assert(r@[j].0@ == w);
            }
            assert forall|a: int, b: int| 0 <= a < b < r@.len() implies #[trigger] r@[a].0@ != #[trigger] r@[b].0@ by {
                assert(r@[a].0@ == self.keys@[a]@);
                assert(r@[b].0@ == self.keys@[b]@);
            }
        }
        r
    }

    /// The `n` k-mers with the largest counts, largest first; all of them when
    /// the table holds fewer. The order among equal counts is left open.
    pub fn top(&self, n: usize) -> (r: Vec<(Vec<u8>, usize)>)
        requires
            self.well_formed(),
        ensures
            is_top(r@, self@, n as nat),
            r@.len() == if n < self.size() { n as nat } else { self.size() },
    {
        let size = self.keys.len();
        let want: usize = if n < size { n } else { size };
        let mut taken: Vec<bool> = Vec::new();
        let mut t: usize = 0;
        while t < size
            invariant
                size == self.keys@.len(),
                t <= size,
                taken@.len() == t,
                forall|a: int| 0 <= a < t ==> !taken@[a],
            decreases size - t,
        {
            taken.push(false);
            t += 1;
        }
        let mut r: Vec<(Vec<u8>, usize)> = Vec::new();
        let ghost mut idx: Seq<int> = Seq::empty();
        while r.len() < want
            invariant
                self.well_formed(),
                size == self.keys@.len(),
                want <= size,
                want <= n,
                want == n || want == size,
                r@.len() <= want,
                taken@.len() == size,
                idx.len() == r@.len(),
                forall|a: int| 0 <= a < size ==> (taken@[a] <==> idx.contains(a)),
                forall|a: int| 0 <= a < idx.len() ==> 0 <= #[trigger] idx[a] < size,
                forall|a: int, b: int| 0 <= a < b < idx.len() ==> #[trigger] idx[a] != #[trigger] idx[b],
                forall|a: int| 0 <= a < idx.len() ==> (#[trigger] r@[a]).0@ == self.keys@[idx[a]]@ && r@[a].1 == self.counts@[idx[a]],
                forall|a: int, b: int| 0 <= a < b < r@.len() ==> #[trigger] r@[a].1 >= #[trigger] r@[b].1,
                r@.len() > 0 ==> forall|a: int| 0 <= a < size && !taken@[a] ==> #[trigger] self.counts@[a] <= r@[r@.len() - 1].1,
            decreases want - r@.len(),
        {
            let mut best: usize = size;
            let mut i: usize = 0;
            while i < size
                invariant
                    self.well_formed(),
                    size == self.keys@.len(),
                    taken@.len() == size,
                    i <= size,
                    best == size || (best < i && !taken@[best as int]),
                    best == size ==> forall|a: int| 0 <= a < i ==> #[trigger] taken@[a],
                    best < size ==> forall|a: int| 0 <= a < i && !taken@[a] ==> #[trigger] self.counts@[a] <= self.counts@[best as int],
                decreases size - i,
            {
                if !taken[i] && (best == size || self.counts[i] > self.counts[best]) {
                    best = i;
                }
                i += 1;
            }
            proof {
                // idx holds fewer than size distinct indices, so one is left.
                if best == size {
                    assert forall|a: int| 0 <= a < size implies idx.contains(a) by {
                        assert(taken@[a]);
                    }
                    lemma_distinct_indices_fill(idx, size as int);
                }
            }
            taken.set(best, true);
            let w = copy_bytes(self.keys[best].as_slice());
            let c = self.counts[best];
            let ghost old_r = r@;
            r.push((w, c));
            proof {
                assert(!idx.contains(best as int));
                let old_idx = idx;
                idx = old_idx.push(best as int);
                assert forall|a: int| 0 <= a < size implies (taken@[a] <==> idx.contains(a)) by {
                    if a == best as int {
                        assert(idx[idx.len() - 1] == a);
                    } else {
                        if old_idx.contains(a) {
                            let b = choose|b: int| 0 <= b < old_idx.len() && old_idx[b] == a;
                            assert(idx[b] == a);
                        }
                        if idx.contains(a) {
                            let b = choose|b: int| 0 <= b < idx.len() && idx[b] == a;
                            assert(old_idx[b] == a);
                        }
                    }
                }
                assert forall|a: int, b: int| 0 <= a < b < r@.len() implies #[trigger] r@[a].1 >= #[trigger] r@[b].1 by {
                    if b == r@.len() - 1 {
                        assert(!taken@[best as int] || true);
                        if old_r.len() > 0 {
                            assert(r@[a].1 >= old_r[old_r.len() - 1].1);
                        }
                    } else {
                        assert(r@[a] == old_r[a] && r@[b] == old_r[b]);
                    }
                }
                assert forall|a: int| 0 <= a < idx.len() implies (#[trigger] r@[a]).0@ == self.keys@[idx[a]]@ && r@[a].1 == self.counts@[idx[a]] by {
                    if a < idx.len() - 1 {
                        assert(r@[a] == old_r[a]);
                    }
                }
            }
        }
        proof {
            assert forall|w: Seq<u8>| #[trigger] self@.contains_key(w) implies listed(r@, w) || (r@.len() == n && forall|j: int|
                0 <= j < r@.len() ==> self@[w] <= #[trigger] r@[j].1) by {
                let a = choose|a: int| 0 <= a < self.keys@.len() && self.keys@[a]@ == w;
                if taken@[a] {
                    assert(idx.contains(a));
                    let b = choose|b: int| 0 <= b < idx.len() && idx[b] == a;
                    assert(r@[b].0@ == w);
                } else {
                    if want == size {
                        lemma_distinct_indices_fill(idx, size as int);
                        assert(idx.contains(a));
                    }
                }
            }
            assert forall|a: int, b: int| 0 <= a < b < r@.len() implies #[trigger] r@[a].0@ != #[trigger] r@[b].0@ by {
                assert(r@[a].0@ == self.keys@[idx[a]]@);
                assert(r@[b].0@ == self.keys@[idx[b]]@);
            }
        }
        r
    }
}

/// Distinct indices below `size`, as many as `size`, take every index.
proof fn lemma_distinct_indices_fill(idx: Seq<int>, size: int)
    requires
        forall|a: int| 0 <= a < idx.len() ==> 0 <= #[trigger] idx[a] < size,
        forall|a: int, b: int| 0 <= a < b < idx.len() ==> #[trigger] idx[a] != #[trigger] idx[b],
        0 <= size,
    ensures
        idx.len() <= size,
        idx.len() == size ==> forall|a: int| 0 <= a < size ==> idx.contains(a),
        (forall|a: int| 0 <= a < size ==> idx.contains(a)) ==> idx.len() == size,
{
    let full = Set::new(|a: int| 0 <= a < size);
    assert(idx.no_duplicates());
    idx.unique_seq_to_set();
    assert(idx.to_set().subset_of(full));
    vstd::set_lib::lemma_int_range(0, size);
    assert(full =~= vstd::set_lib::set_int_range(0, size));
    vstd::set_lib::lemma_len_subset(idx.to_set(), full);
    if forall|a: int| 0 <= a < size ==> idx.contains(a) {
        assert(full.subset_of(idx.to_set()));
        vstd::set_lib::lemma_len_subset(full, idx.to_set());
    }
    if idx.len() == size {
        vstd::set_lib::lemma_subset_equality(idx.to_set(), full);
        assert forall|a: int| 0 <= a < size implies idx.contains(a) by {
            assert(full.contains(a));
            assert(idx.to_set().contains(a));
        }
    }
}

/// Adding up a prefix of `s` one element further, and staying within the
/// whole sum.
proof fn lemma_prefix_sum(s: Seq<usize>, i: int)
    requires
        0 <= i < s.len(),
    ensures
        sum_of(s.subrange(0, i + 1)) == sum_of(s.subrange(0, i)) + s[i],
        sum_of(s.subrange(0, i + 1)) <= sum_of(s),
    decreases s.len(),
{
    assert(s.subrange(0, i + 1).drop_last() =~= s.subrange(0, i));
    if i + 1 < s.len() {
        lemma_prefix_sum(s.drop_last(), i);
        assert(s.drop_last().subrange(0, i + 1) =~= s.subrange(0, i + 1));
    } else {
        assert(s.subrange(0, i + 1) =~= s);
    }
}


/// Whether two byte slices hold the same bytes.
pub fn bytes_equal(a: &[u8], b: &[u8]) -> (r: bool)
    ensures
        r == (a@ == b@),
{
    if a.len() != b.len() {
        return false;
    }
    let mut i: usize = 0;
    while i < a.len()
        invariant
            a@.len() == b@.len(),
            i <= a@.len(),
            forall|j: int| 0 <= j < i ==> a@[j] == b@[j],
        decreases a@.len() - i,
    {
        if a[i] != b[i] {
            return false;
        }
        i += 1;
    }
    assert(a@ =~= b@);
    true
}

/// A copy of a byte slice.
pub fn copy_bytes(s: &[u8]) -> (r: Vec<u8>)
    ensures
        r@ == s@,
{
    let mut r: Vec<u8> = Vec::new();
    let mut i: usize = 0;
    while i < s.len()
        invariant
            i <= s@.len(),
            r@ == s@.subrange(0, i as int),
        decreases s@.len() - i,
    {
        r.push(s[i]);
        i += 1;
        assert(r@ =~= s@.subrange(0, i as int));
    }
    assert(s@.subrange(0, s@.len() as int) =~= s@);
    r
}

} // verus!

verus! {

/// Merging count maps does not depend on the order of the operands.
pub proof fn law_merge_commutative(a: Map<Seq<u8>, nat>, b: Map<Seq<u8>, nat>)
    ensures
        merged(a, b) == merged(b, a),
{
    assert(merged(a, b) =~= merged(b, a));
}

/// Merging count maps does not depend on how the merges are grouped.
pub proof fn law_merge_associative(a: Map<Seq<u8>, nat>, b: Map<Seq<u8>, nat>, c: Map<Seq<u8>, nat>)
    ensures
        merged(merged(a, b), c) == merged(a, merged(b, c)),
{
    assert(merged(merged(a, b), c) =~= merged(a, merged(b, c)));
}

/// Merging an empty count map changes nothing.
pub proof fn law_merge_empty(a: Map<Seq<u8>, nat>)
    ensures
        merged(a, Map::empty()) == a,
{
    assert(merged(a, Map::empty()) =~= a);
}

} // verus!

verus! {

/// A window wider than the sequence fits nowhere: such a sequence has no
/// k-mer and adds nothing to any count.
pub proof fn law_wide_window_counts_nothing(s: Seq<u8>, k: nat, m: Map<Seq<u8>, nat>)
    requires
        k > s.len(),
    ensures
        window_count(s, k) == 0,
        profile(s, k) == Map::<Seq<u8>, nat>::empty(),
        merged(m, profile(s, k)) == m,
{
    assert(profile(s, k) =~= Map::<Seq<u8>, nat>::empty());
    law_merge_empty(m);
}

} // verus!
