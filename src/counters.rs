//! The four aggregators. Each keeps a worker-local tally that
//! `process_record` grows, and a global tally that only `on_batch_complete`
//! (from its own local tally) and `absorb` (from another worker's counter)
//! change.

use crate::error::ReaderError;
use crate::kmer::{merged, profile, window_count, KmerTable};
use crate::search::{contains_pattern, occurs_in};
use vstd::arithmetic::power2::{lemma_pow2_unfold, pow2};
use vstd::prelude::*;

verus! {

/// A record as the aggregators see it: its decoded primary sequence and, for a
/// paired record, its decoded mate.
pub type RecordView = (Seq<u8>, Option<Seq<u8>>);

/// The view of an optional mate sequence.
pub open spec fn mate_view(mate: Option<&[u8]>) -> Option<Seq<u8>> {
    match mate {
        Some(m) => Some(m@),
        None => None,
    }
}

// ---------------------------------------------------------------- records

/// Number of records in `rs`.
pub open spec fn records_in(rs: Seq<RecordView>) -> nat {
    rs.len()
}

/// Counts every record it is shown.
pub struct RecordCounter {
    local_count: usize,
    count: usize,
}

impl RecordCounter {
    /// Records seen since the last batch was folded in.
    pub closed spec fn local(&self) -> nat {
        self.local_count as nat
    }

    /// Records folded into the global tally.
    pub closed spec fn global(&self) -> nat {
        self.count as nat
    }

    /// A counter with both tallies at zero.
    pub fn new() -> (r: Self)
        ensures
            r.local() == 0,
            r.global() == 0,
    {
        RecordCounter { local_count: 0, count: 0 }
    }

    /// The global tally.
    pub fn count(&self) -> (r: usize)
        ensures
            r == self.global(),
    {
        self.count
    }

    /// The worker-local tally.
    pub fn local_count(&self) -> (r: usize)
        ensures
            r == self.local(),
    {
        self.local_count
    }

    /// Counts one record, whatever it holds.
    pub fn process_record(&mut self)
        requires
            old(self).local() < usize::MAX,
        ensures
            final(self).local() == old(self).local() + 1,
            final(self).global() == old(self).global(),
    {
        self.local_count = self.local_count + 1;
    }

    /// Adds the local tally to the global one and starts the local one afresh.
    pub fn on_batch_complete(&mut self)
        requires
            old(self).global() + old(self).local() <= usize::MAX,
        ensures
            final(self).global() == old(self).global() + old(self).local(),
            final(self).local() == 0,
    {
        self.count = self.count + self.local_count;
        self.local_count = 0;
    }

    /// Moves both tallies of `worker` into this counter's global tally.
    pub fn absorb(&mut self, worker: &mut RecordCounter)
        requires
            old(self).global() + old(worker).global() + old(worker).local() <= usize::MAX,
        ensures
            final(self).global() == old(self).global() + old(worker).global() + old(worker).local(),
            final(self).local() == old(self).local(),
            final(worker).local() == 0,
            final(worker).global() == 0,
    {
        self.count = self.count + worker.count + worker.local_count;
        worker.count = 0;
        worker.local_count = 0;
    }
}

// ---------------------------------------------------------------- grep

/// A record matches when `pattern` occurs in its primary sequence or in its
/// mate; a pair where both match still counts once.
pub open spec fn record_matches(pattern: Seq<u8>, r: RecordView) -> bool {
    occurs_in(r.0, pattern) || match r.1 {
        Some(m) => occurs_in(m, pattern),
        None => occurs_in(Seq::<u8>::empty(), pattern),
    }
}

/// Number of records of `rs` that match `pattern`.
pub open spec fn matches_in(pattern: Seq<u8>, rs: Seq<RecordView>) -> nat
    decreases rs.len(),
{
    if rs.len() == 0 {
        0
    } else {
        matches_in(pattern, rs.drop_last()) + if record_matches(pattern, rs.last()) {
            1nat
        } else {
            0nat
        }
    }
}

/// Counts the records in which a fixed byte pattern occurs.
pub struct GrepCounter {
    local_count: usize,
    pattern: Vec<u8>,
    count: usize,
}

impl GrepCounter {
    /// The pattern searched for.
    pub closed spec fn pattern(&self) -> Seq<u8> {
        self.pattern@
    }

    /// Matching records seen since the last batch was folded in.
    pub closed spec fn local(&self) -> nat {
        self.local_count as nat
    }

    /// Matching records folded into the global tally.
    pub closed spec fn global(&self) -> nat {
        self.count as nat
    }

    /// A counter for `pattern` with both tallies at zero.
    pub fn new(pattern: &[u8]) -> (r: Self)
        ensures
            r.pattern() == pattern@,
            r.local() == 0,
            r.global() == 0,
    {
        GrepCounter { local_count: 0, pattern: crate::kmer::copy_bytes(pattern), count: 0 }
    }

    /// Whether the pattern occurs in `seq`.
    pub fn match_sequence(&self, seq: &[u8]) -> (r: bool)
        ensures
            r == occurs_in(seq@, self.pattern()),
    {
        contains_pattern(seq, self.pattern.as_slice())
    }

    /// The global tally.
    pub fn count(&self) -> (r: usize)
        ensures
            r == self.global(),
    {
        self.count
    }

    /// The worker-local tally.
    pub fn local_count(&self) -> (r: usize)
        ensures
            r == self.local(),
    {
        self.local_count
    }

    /// Counts the record made of `primary` and, if paired, `mate` when the
    /// pattern occurs in either.
    pub fn process_record(&mut self, primary: &[u8], mate: Option<&[u8]>)
        requires
            old(self).local() < usize::MAX,
        ensures
            final(self).pattern() == old(self).pattern(),
            final(self).local() == old(self).local() + if record_matches(
                old(self).pattern(),
                (primary@, mate_view(mate)),
            ) {
                1nat
            } else {
                0nat
            },
            final(self).global() == old(self).global(),
    {
        let empty: [u8; 0] = [];
        let hit = self.match_sequence(primary) || match mate {
            Some(m) => self.match_sequence(m),
            None => self.match_sequence(&empty),
        };
        proof {
            assert(empty@ =~= Seq::<u8>::empty());
        }
        if hit {
            self.local_count = self.local_count + 1;
        }
    }

    /// Adds the local tally to the global one and starts the local one afresh.
    pub fn on_batch_complete(&mut self)
        requires
            old(self).global() + old(self).local() <= usize::MAX,
        ensures
            final(self).pattern() == old(self).pattern(),
            final(self).global() == old(self).global() + old(self).local(),
            final(self).local() == 0,
    {
        self.count = self.count + self.local_count;
        self.local_count = 0;
    }

    /// Moves both tallies of `worker` into this counter's global tally.
    pub fn absorb(&mut self, worker: &mut GrepCounter)
        requires
            old(self).global() + old(worker).global() + old(worker).local() <= usize::MAX,
        ensures
            final(self).pattern() == old(self).pattern(),
            final(self).global() == old(self).global() + old(worker).global() + old(worker).local(),
            final(self).local() == old(self).local(),
            final(worker).pattern() == old(worker).pattern(),
            final(worker).local() == 0,
            final(worker).global() == 0,
    {
        self.count = self.count + worker.count + worker.local_count;
        worker.count = 0;
        worker.local_count = 0;
    }
}

// ---------------------------------------------------------------- popcount

/// Number of set bits in `b`.
pub open spec fn bits_of_byte(b: nat) -> nat
    decreases b,
{
    if b == 0 {
        0
    } else {
        b % 2 + bits_of_byte(b / 2)
    }
}

/// Number of set bits over all bytes of `s`.
pub open spec fn bits_of(s: Seq<u8>) -> nat
    decreases s.len(),
{
    if s.len() == 0 {
        0
    } else {
        bits_of(s.drop_last()) + bits_of_byte(s.last() as nat)
    }
}

/// Set bits of a record: its primary sequence and, if paired, its mate.
pub open spec fn record_bits(r: RecordView) -> nat {
    bits_of(r.0) + match r.1 {
        Some(m) => bits_of(m),
        None => 0,
    }
}

/// Set bits over all records of `rs`.
pub open spec fn bits_in(rs: Seq<RecordView>) -> nat
    decreases rs.len(),
{
    if rs.len() == 0 {
        0
    } else {
        bits_in(rs.drop_last()) + record_bits(rs.last())
    }
}

proof fn lemma_bits_of_byte_bound(b: nat, n: nat)
    requires
        b < pow2(n),
    ensures
        bits_of_byte(b) <= n,
    decreases n,
{
    if b > 0 {
        if n == 0 {
            assert(pow2(0) == 1) by {
                vstd::arithmetic::power2::lemma2_to64();
            }
        } else {
            lemma_pow2_unfold(n);
            assert(pow2(n) == 2 * pow2((n - 1) as nat));
            lemma_bits_of_byte_bound(b / 2, (n - 1) as nat);
        }
    }
}

/// Number of set bits in `b`.
pub fn popcount_byte(b: u8) -> (r: u64)
    ensures
        r == bits_of_byte(b as nat),
        r <= 8,
{
    proof {
        vstd::arithmetic::power2::lemma2_to64();
        lemma_bits_of_byte_bound(b as nat, 8);
    }
    let mut x: u8 = b;
    let mut r: u64 = 0;
    while x > 0
        invariant
            r + bits_of_byte(x as nat) == bits_of_byte(b as nat),
            bits_of_byte(b as nat) <= 8,
        decreases x,
    {
        r = r + (x % 2) as u64;
        x = x / 2;
    }
    r
}

proof fn lemma_bits_of_prefix(s: Seq<u8>, i: int)
    requires
        0 <= i < s.len(),
    ensures
        bits_of(s.subrange(0, i + 1)) == bits_of(s.subrange(0, i)) + bits_of_byte(s[i] as nat),
        bits_of(s.subrange(0, i + 1)) <= bits_of(s),
    decreases s.len(),
{
    assert(s.subrange(0, i + 1).drop_last() =~= s.subrange(0, i));
    if i + 1 < s.len() {
        lemma_bits_of_prefix(s.drop_last(), i);
        assert(s.drop_last().subrange(0, i + 1) =~= s.subrange(0, i + 1));
    } else {
        assert(s.subrange(0, i + 1) =~= s);
    }
}

/// Number of set bits over all bytes of `s`.
pub fn popcount_bytes(s: &[u8]) -> (r: u64)
    requires
        bits_of(s@) <= u64::MAX,
    ensures
        r == bits_of(s@),
{
    let mut r: u64 = 0;
    let mut i: usize = 0;
    while i < s.len()
        invariant
            i <= s@.len(),
            bits_of(s@) <= u64::MAX,
            r == bits_of(s@.subrange(0, i as int)),
        decreases s@.len() - i,
    {
        proof {
            lemma_bits_of_prefix(s@, i as int);
        }
        let c = popcount_byte(s[i]);
        r = r + c;
        i += 1;
    }
    assert(s@.subrange(0, i as int) =~= s@);
    r
}

/// Sums the set bits of every decoded byte it is shown.
pub struct PopcntCounter {
    total_popcnt: u64,
    local_popcnt: u64,
}

impl PopcntCounter {
    /// Set bits seen since the last batch was folded in.
    pub closed spec fn local(&self) -> nat {
        self.local_popcnt as nat
    }

    /// Set bits folded into the global tally.
    pub closed spec fn global(&self) -> nat {
        self.total_popcnt as nat
    }

    /// A counter with both tallies at zero.
    pub fn new() -> (r: Self)
        ensures
            r.local() == 0,
            r.global() == 0,
    {
        PopcntCounter { total_popcnt: 0, local_popcnt: 0 }
    }

    /// The global tally.
    pub fn total_count(&self) -> (r: u64)
        ensures
            r == self.global(),
    {
        self.total_popcnt
    }

    /// The worker-local tally.
    pub fn local_count(&self) -> (r: u64)
        ensures
            r == self.local(),
    {
        self.local_popcnt
    }

    /// Sets the global tally back to zero.
    pub fn reset(&mut self)
        ensures
            final(self).global() == 0,
            final(self).local() == old(self).local(),
    {
        self.total_popcnt = 0;
    }

    /// Adds the set bits of `primary` and, if paired, of `mate`.
    pub fn process_record(&mut self, primary: &[u8], mate: Option<&[u8]>)
        requires
            old(self).local() + record_bits((primary@, mate_view(mate))) <= u64::MAX,
        ensures
            final(self).local() == old(self).local() + record_bits((primary@, mate_view(mate))),
            final(self).global() == old(self).global(),
    {
        let s = popcount_bytes(primary);
        self.local_popcnt = self.local_popcnt + s;
        match mate {
            Some(m) => {
                let x = popcount_bytes(m);
                self.local_popcnt = self.local_popcnt + x;
            },
            None => {},
        }
    }

    /// Adds the local tally to the global one and starts the local one afresh.
    pub fn on_batch_complete(&mut self)
        requires
            old(self).global() + old(self).local() <= u64::MAX,
        ensures
            final(self).global() == old(self).global() + old(self).local(),
            final(self).local() == 0,
    {
        self.total_popcnt = self.total_popcnt + self.local_popcnt;
        self.local_popcnt = 0;
    }

    /// Moves both tallies of `worker` into this counter's global tally.
    pub fn absorb(&mut self, worker: &mut PopcntCounter)
        requires
            old(self).global() + old(worker).global() + old(worker).local() <= u64::MAX,
        ensures
            final(self).global() == old(self).global() + old(worker).global() + old(worker).local(),
            final(self).local() == old(self).local(),
            final(worker).local() == 0,
            final(worker).global() == 0,
    {
        self.total_popcnt = self.total_popcnt + worker.total_popcnt + worker.local_popcnt;
        worker.total_popcnt = 0;
        worker.local_popcnt = 0;
    }
}

// ---------------------------------------------------------------- k-mers

/// K-mer counts of a record: windows of its primary sequence and, if paired,
/// of its mate, in one map.
pub open spec fn record_profile(k: nat, r: RecordView) -> Map<Seq<u8>, nat> {
    merged(
        profile(r.0, k),
        match r.1 {
            Some(m) => profile(m, k),
            None => Map::empty(),
        },
    )
}

/// Number of windows of width `k` in a record, its mate included.
pub open spec fn record_windows(k: nat, r: RecordView) -> nat {
    window_count(r.0, k) + match r.1 {
        Some(m) => window_count(m, k),
        None => 0,
    }
}

/// K-mer counts over all records of `rs`.
pub open spec fn profile_in(k: nat, rs: Seq<RecordView>) -> Map<Seq<u8>, nat>
    decreases rs.len(),
{
    if rs.len() == 0 {
        Map::empty()
    } else {
        merged(profile_in(k, rs.drop_last()), record_profile(k, rs.last()))
    }
}

/// Counts the k-mers of every record it is shown, for one fixed `k` of at
/// least one.
pub struct KmerCounter {
    k: usize,
    local_kmers: KmerTable,
    global_kmers: KmerTable,
}

impl KmerCounter {
    /// The k-mer length.
    pub closed spec fn k(&self) -> nat {
        self.k as nat
    }

    /// K-mer counts seen since the last batch was folded in.
    pub closed spec fn local(&self) -> Map<Seq<u8>, nat> {
        self.local_kmers@
    }

    /// K-mer counts folded into the global tally.
    pub closed spec fn global(&self) -> Map<Seq<u8>, nat> {
        self.global_kmers@
    }

    /// Number of windows counted in the local tally.
    pub closed spec fn local_total(&self) -> nat {
        self.local_kmers.total()
    }

    /// Number of windows counted in the global tally.
    pub closed spec fn global_total(&self) -> nat {
        self.global_kmers.total()
    }

    /// `k` is at least one, both tables are well formed, and all windows
    /// counted fit in a `usize`.
    pub closed spec fn well_formed(&self) -> bool {
        &&& self.k > 0
        &&& self.local_kmers.well_formed()
        &&& self.global_kmers.well_formed()
        &&& self.local_kmers.total() + self.global_kmers.total() <= usize::MAX
    }

    /// A counter for k-mers of length `k`, with empty tallies; a `k` of zero
    /// is refused.
    pub fn new(k: usize) -> (r: Result<Self, ReaderError>)
        ensures
            k == 0 <==> r is Err,
            r matches Err(e) ==> e == ReaderError::InvalidKmerLength,
            r matches Ok(c) ==> {
                &&& c.well_formed()
                &&& c.k() == k
                &&& c.local() == Map::<Seq<u8>, nat>::empty()
                &&& c.global() == Map::<Seq<u8>, nat>::empty()
                &&& c.local_total() == 0
                &&& c.global_total() == 0
            },
    {
        if k == 0 {
            return Err(ReaderError::InvalidKmerLength);
        }
        Ok(KmerCounter { k, local_kmers: KmerTable::new(), global_kmers: KmerTable::new() })
    }

    /// The k-mer length.
    pub fn kmer_length(&self) -> (r: usize)
        ensures
            r == self.k(),
    {
        self.k
    }

    /// The local tally.
    pub fn local_kmers(&self) -> (r: &KmerTable)
        requires
            self.well_formed(),
        ensures
            r.well_formed(),
            r@ == self.local(),
            r.total() == self.local_total(),
    {
        &self.local_kmers
    }

    /// Counts every window of width `k` over `sequence` in the local tally.
    pub fn count_kmers_in_sequence(&mut self, sequence: &[u8])
        requires
            old(self).well_formed(),
            old(self).local_total() + old(self).global_total() + window_count(sequence@, old(self).k())
                <= usize::MAX,
        ensures
            final(self).well_formed(),
            final(self).k() == old(self).k(),
            final(self).local() == merged(old(self).local(), profile(sequence@, old(self).k())),
            final(self).local_total() == old(self).local_total() + window_count(sequence@, old(self).k()),
            final(self).global() == old(self).global(),
            final(self).global_total() == old(self).global_total(),
    {
        self.local_kmers.add_windows(sequence, self.k);
    }

    /// Counts the windows of `primary` and, if paired, of `mate`.
    pub fn process_record(&mut self, primary: &[u8], mate: Option<&[u8]>)
        requires
            old(self).well_formed(),
            old(self).local_total() + old(self).global_total() + record_windows(
                old(self).k(),
                (primary@, mate_view(mate)),
            ) <= usize::MAX,
        ensures
            final(self).well_formed(),
            final(self).k() == old(self).k(),
            final(self).local() == merged(old(self).local(), record_profile(old(self).k(), (primary@, mate_view(mate)))),
            final(self).local_total() == old(self).local_total() + record_windows(
                old(self).k(),
                (primary@, mate_view(mate)),
            ),
            final(self).global() == old(self).global(),
            final(self).global_total() == old(self).global_total(),
    {
        let ghost k = self.k();
        let ghost start = self.local();
        self.count_kmers_in_sequence(primary);
        match mate {
            Some(m) => {
                self.count_kmers_in_sequence(m);
                proof {
                    crate::kmer::law_merge_associative(start, profile(primary@, k), profile(m@, k));
                }
            },
            None => {
                proof {
                    crate::kmer::law_merge_empty(profile(primary@, k));
                }
            },
        }
    }

    /// Adds the local tally to the global one and empties the local one.
    pub fn on_batch_complete(&mut self)
        requires
            old(self).well_formed(),
        ensures
            final(self).well_formed(),
            final(self).k() == old(self).k(),
            final(self).global() == merged(old(self).global(), old(self).local()),
            final(self).global_total() == old(self).global_total() + old(self).local_total(),
            final(self).local() == Map::<Seq<u8>, nat>::empty(),
            final(self).local_total() == 0,
    {
        self.global_kmers.merge_from(&mut self.local_kmers);
    }

    /// Moves both tallies of `worker` into this counter's global tally.
    pub fn absorb(&mut self, worker: &mut KmerCounter)
        requires
            old(self).well_formed(),
            old(worker).well_formed(),
            old(self).local_total() + old(self).global_total() + old(worker).global_total()
                + old(worker).local_total() <= usize::MAX,
        ensures
            final(self).well_formed(),
            final(self).k() == old(self).k(),
            final(self).global() == merged(merged(old(self).global(), old(worker).global()), old(worker).local()),
            final(self).global_total() == old(self).global_total() + old(worker).global_total()
                + old(worker).local_total(),
            final(self).local() == old(self).local(),
            final(self).local_total() == old(self).local_total(),
            final(worker).well_formed(),
            final(worker).k() == old(worker).k(),
            final(worker).local() == Map::<Seq<u8>, nat>::empty(),
            final(worker).global() == Map::<Seq<u8>, nat>::empty(),
            final(worker).local_total() == 0,
            final(worker).global_total() == 0,
    {
        self.global_kmers.merge_from(&mut worker.global_kmers);
        self.global_kmers.merge_from(&mut worker.local_kmers);
    }

    /// Every k-mer of the global tally with its count, each once.
    pub fn get_counts(&self) -> (r: Vec<(Vec<u8>, usize)>)
        requires
            self.well_formed(),
        ensures
            crate::kmer::lists_exactly(r@, self.global()),
    {
        self.global_kmers.entries()
    }

    /// Number of distinct k-mers in the global tally.
    pub fn unique_kmer_count(&self) -> (r: usize)
        requires
            self.well_formed(),
        ensures
            r == self.global().dom().len(),
    {
        self.global_kmers.len()
    }

    /// Number of windows counted in the global tally.
    pub fn total_kmer_count(&self) -> (r: usize)
        requires
            self.well_formed(),
        ensures
            r == self.global_total(),
    {
        self.global_kmers.total_count()
    }

    /// A k-mer of the global tally with the largest count, and that count;
    /// `None` when the tally is empty. Ties may go either way.
    pub fn most_frequent_kmer(&self) -> (r: Option<(Vec<u8>, usize)>)
        requires
            self.well_formed(),
        ensures
            r.is_none() == (self.global() == Map::<Seq<u8>, nat>::empty()),
            r matches Some((w, c)) ==> crate::kmer::is_most_frequent(self.global(), w@, c as nat),
    {
        let r = self.global_kmers.most_frequent();
        proof {
            self.global_kmers.lemma_positive();
            if self.global_kmers.size() == 0 {
                assert(self.global() =~= Map::<Seq<u8>, nat>::empty());
            }
        }
        r
    }

    /// The `n` k-mers of the global tally with the largest counts, largest
    /// first; all of them when there are fewer.
    pub fn top_kmers(&self, n: usize) -> (r: Vec<(Vec<u8>, usize)>)
        requires
            self.well_formed(),
        ensures
            crate::kmer::is_top(r@, self.global(), n as nat),
            r@.len() == if n < self.global().dom().len() {
                n as nat
            } else {
                self.global().dom().len()
            },
    {
        proof {
            self.global_kmers.lemma_positive();
        }
        self.global_kmers.top(n)
    }
}

impl Default for PopcntCounter {
    fn default() -> (r: Self)
        ensures
            r.local() == 0,
            r.global() == 0,
    {
        PopcntCounter::new()
    }
}

impl Default for RecordCounter {
    fn default() -> (r: Self)
        ensures
            r.local() == 0,
            r.global() == 0,
    {
        RecordCounter::new()
    }
}

} // verus!

verus! {

// ---------------------------------------------------------------- merging laws

/// Match counts of chunk after chunk, added up in the order the chunks are
/// folded in.
pub open spec fn chunked_matches(pattern: Seq<u8>, chunks: Seq<Seq<RecordView>>) -> nat
    decreases chunks.len(),
{
    if chunks.len() == 0 {
        0
    } else {
        chunked_matches(pattern, chunks.drop_last()) + matches_in(pattern, chunks.last())
    }
}

/// Record counts of chunk after chunk, added up.
pub open spec fn chunked_records(chunks: Seq<Seq<RecordView>>) -> nat
    decreases chunks.len(),
{
    if chunks.len() == 0 {
        0
    } else {
        chunked_records(chunks.drop_last()) + records_in(chunks.last())
    }
}

/// Set-bit counts of chunk after chunk, added up.
pub open spec fn chunked_bits(chunks: Seq<Seq<RecordView>>) -> nat
    decreases chunks.len(),
{
    if chunks.len() == 0 {
        0
    } else {
        chunked_bits(chunks.drop_last()) + bits_in(chunks.last())
    }
}

/// K-mer counts of chunk after chunk, merged.
pub open spec fn chunked_profile(k: nat, chunks: Seq<Seq<RecordView>>) -> Map<Seq<u8>, nat>
    decreases chunks.len(),
{
    if chunks.len() == 0 {
        Map::empty()
    } else {
        merged(chunked_profile(k, chunks.drop_last()), profile_in(k, chunks.last()))
    }
}

/// Counting the matches of two runs of records apart and adding the counts
/// gives the count of the two runs together.
pub proof fn law_matches_split(pattern: Seq<u8>, a: Seq<RecordView>, b: Seq<RecordView>)
    ensures
        matches_in(pattern, a + b) == matches_in(pattern, a) + matches_in(pattern, b),
    decreases b.len(),
{
    if b.len() == 0 {
        assert(a + b =~= a);
    } else {
        assert((a + b).drop_last() =~= a + b.drop_last());
        law_matches_split(pattern, a, b.drop_last());
    }
}

/// The records of two runs, counted apart and added, are the records of the
/// two runs together.
pub proof fn law_records_split(a: Seq<RecordView>, b: Seq<RecordView>)
    ensures
        records_in(a + b) == records_in(a) + records_in(b),
{
}

/// Set bits of two runs of records, counted apart and added, are the set bits
/// of the two runs together.
pub proof fn law_bits_split(a: Seq<RecordView>, b: Seq<RecordView>)
    ensures
        bits_in(a + b) == bits_in(a) + bits_in(b),
    decreases b.len(),
{
    if b.len() == 0 {
        assert(a + b =~= a);
    } else {
        assert((a + b).drop_last() =~= a + b.drop_last());
        law_bits_split(a, b.drop_last());
    }
}

/// K-mer counts of two runs of records, merged, are the k-mer counts of the
/// two runs together.
pub proof fn law_profile_split(k: nat, a: Seq<RecordView>, b: Seq<RecordView>)
    ensures
        profile_in(k, a + b) == merged(profile_in(k, a), profile_in(k, b)),
    decreases b.len(),
{
    if b.len() == 0 {
        assert(a + b =~= a);
        crate::kmer::law_merge_empty(profile_in(k, a));
    } else {
        assert((a + b).drop_last() =~= a + b.drop_last());
        law_profile_split(k, a, b.drop_last());
        crate::kmer::law_merge_associative(
            profile_in(k, a),
            profile_in(k, b.drop_last()),
            record_profile(k, b.last()),
        );
    }
}

/// However the records of a file are cut into chunks, the per-chunk match
/// counts add up to the count of one pass over all records.
pub proof fn law_matches_chunked(pattern: Seq<u8>, chunks: Seq<Seq<RecordView>>)
    ensures
        chunked_matches(pattern, chunks) == matches_in(pattern, chunks.flatten()),
    decreases chunks.len(),
{
    if chunks.len() > 0 {
        law_matches_chunked(pattern, chunks.drop_last());
        chunks.drop_last().lemma_flatten_push(chunks.last());
        assert(chunks.drop_last().push(chunks.last()) =~= chunks);
        law_matches_split(pattern, chunks.drop_last().flatten(), chunks.last());
    }
}

/// However the records of a file are cut into chunks, the per-chunk record
/// counts add up to the number of records.
pub proof fn law_records_chunked(chunks: Seq<Seq<RecordView>>)
    ensures
        chunked_records(chunks) == records_in(chunks.flatten()),
    decreases chunks.len(),
{
    if chunks.len() > 0 {
        law_records_chunked(chunks.drop_last());
        chunks.drop_last().lemma_flatten_push(chunks.last());
        assert(chunks.drop_last().push(chunks.last()) =~= chunks);
    }
}

/// However the records of a file are cut into chunks, the per-chunk set-bit
/// counts add up to the count of one pass over all records.
pub proof fn law_bits_chunked(chunks: Seq<Seq<RecordView>>)
    ensures
        chunked_bits(chunks) == bits_in(chunks.flatten()),
    decreases chunks.len(),
{
    if chunks.len() > 0 {
        law_bits_chunked(chunks.drop_last());
        chunks.drop_last().lemma_flatten_push(chunks.last());
        assert(chunks.drop_last().push(chunks.last()) =~= chunks);
        law_bits_split(chunks.drop_last().flatten(), chunks.last());
    }
}

/// However the records of a file are cut into chunks, merging the per-chunk
/// k-mer counts gives the counts of one pass over all records.
pub proof fn law_profile_chunked(k: nat, chunks: Seq<Seq<RecordView>>)
    ensures
        chunked_profile(k, chunks) == profile_in(k, chunks.flatten()),
    decreases chunks.len(),
{
    if chunks.len() > 0 {
        law_profile_chunked(k, chunks.drop_last());
        chunks.drop_last().lemma_flatten_push(chunks.last());
        assert(chunks.drop_last().push(chunks.last()) =~= chunks);
        law_profile_split(k, chunks.drop_last().flatten(), chunks.last());
    } else {
        assert(chunks.flatten() =~= Seq::<RecordView>::empty());
    }
}

/// The order in which two chunks are folded in does not change any tally.
pub proof fn law_chunk_order(pattern: Seq<u8>, k: nat, a: Seq<RecordView>, b: Seq<RecordView>)
    ensures
        records_in(a + b) == records_in(b + a),
        matches_in(pattern, a + b) == matches_in(pattern, b + a),
        bits_in(a + b) == bits_in(b + a),
        profile_in(k, a + b) == profile_in(k, b + a),
{
    law_matches_split(pattern, a, b);
    law_matches_split(pattern, b, a);
    law_bits_split(a, b);
    law_bits_split(b, a);
    law_profile_split(k, a, b);
    law_profile_split(k, b, a);
    crate::kmer::law_merge_commutative(profile_in(k, a), profile_in(k, b));
}

} // verus!
