use pybq::counters::{popcount_bytes, GrepCounter, KmerCounter, PopcntCounter, RecordCounter};
use pybq::error::ReaderError;

fn profile_counts(c: &KmerCounter) -> std::collections::HashMap<Vec<u8>, usize> {
    c.get_counts().into_iter().collect()
}

#[test]
fn test_kmer_counter_basic() {
    let mut counter = KmerCounter::new(3).unwrap();
    let sequence = b"ATCGATCG";

    counter.count_kmers_in_sequence(sequence);

    assert_eq!(counter.local_kmers().get(b"ATC"), Some(2));
    assert_eq!(counter.local_kmers().get(b"TCG"), Some(2));
    assert_eq!(counter.local_kmers().get(b"CGA"), Some(1));
    assert_eq!(counter.local_kmers().get(b"GAT"), Some(1));
}

#[test]
fn test_kmer_counter_empty() {
    let mut counter = KmerCounter::new(3).unwrap();
    let sequence = b"";

    counter.count_kmers_in_sequence(sequence);
    assert!(counter.local_kmers().is_empty());
}

#[test]
fn test_kmer_counter_k_too_large() {
    let mut counter = KmerCounter::new(10).unwrap();
    let sequence = b"ATCG";

    counter.count_kmers_in_sequence(sequence);
    assert!(counter.local_kmers().is_empty());
}

#[test]
fn test_popcnt_basic() {
    let data: Vec<u8> = vec![0b11111111, 0b00000000, 0b10101010];
    let result = popcount_bytes(&data);

    // 8 + 0 + 4 = 12
    assert_eq!(result, 12);
}

#[test]
fn test_popcnt_empty() {
    let data: Vec<u8> = vec![];
    let result = popcount_bytes(&data);
    assert_eq!(result, 0);
}

#[test]
fn test_counter_reset() {
    let mut counter = PopcntCounter::new();
    // 5 * 8 + 2 = 42 set bits
    counter.process_record(&[0xff, 0xff, 0xff, 0xff, 0xff, 0b11], None);
    counter.on_batch_complete();
    assert_eq!(counter.total_count(), 42);

    counter.reset();
    assert_eq!(counter.total_count(), 0);
}

#[test]
fn test_record_counter() {
    let counter = RecordCounter::new();
    assert_eq!(counter.count(), 0);
}

#[test]
fn test_grep_counter() {
    let counter = GrepCounter::new(b"ACGT");
    assert_eq!(counter.count(), 0);
}

#[test]
fn record_counter_counts_every_record() {
    let mut counter = RecordCounter::new();
    counter.process_record();
    counter.process_record();
    counter.process_record();
    assert_eq!(counter.local_count(), 3);
    assert_eq!(counter.count(), 0);
    counter.on_batch_complete();
    assert_eq!(counter.count(), 3);
    assert_eq!(counter.local_count(), 0);
}

#[test]
fn grep_pair_counts_once_and_either_side_matches() {
    let mut counter = GrepCounter::new(b"ACGT");
    // both sides match: counted once
    counter.process_record(b"TTACGTTT", Some(b"ACGTACGT"));
    // only the mate matches
    counter.process_record(b"TTTTTTTT", Some(b"GGACGT"));
    // neither matches
    counter.process_record(b"AAAA", Some(b"CCCC"));
    // unpaired, no match
    counter.process_record(b"ACG", None);
    // unpaired, match at the very end
    counter.process_record(b"GGGACGT", None);
    counter.on_batch_complete();
    assert_eq!(counter.count(), 3);
}

#[test]
fn grep_empty_pattern_matches_every_record() {
    let mut counter = GrepCounter::new(b"");
    counter.process_record(b"", None);
    counter.process_record(b"ACGT", Some(b"T"));
    counter.on_batch_complete();
    assert_eq!(counter.count(), 2);
}

#[test]
fn grep_match_sequence_is_exact_substring_search() {
    let counter = GrepCounter::new(b"A.G");
    assert!(!counter.match_sequence(b"ACG"));
    assert!(counter.match_sequence(b"TA.GT"));
    let longer = GrepCounter::new(b"ACGTACGT");
    assert!(!longer.match_sequence(b"ACGT"));
}

#[test]
fn popcnt_counter_adds_primary_and_mate() {
    let mut counter = PopcntCounter::new();
    counter.process_record(&[0b11111111, 0b00000000, 0b10101010], None);
    counter.process_record(b"A", Some(b"C"));
    // 'A' = 0x41 has 2 bits, 'C' = 0x43 has 3 bits
    assert_eq!(counter.local_count(), 17);
    counter.on_batch_complete();
    assert_eq!(counter.total_count(), 17);
    assert_eq!(counter.local_count(), 0);
}

fn records() -> Vec<(Vec<u8>, Option<Vec<u8>>)> {
    vec![
        (b"ACGTAC".to_vec(), None),
        (b"TTTT".to_vec(), Some(b"GACGTT".to_vec())),
        (b"CCCCGG".to_vec(), Some(b"A".to_vec())),
        (b"ACG".to_vec(), None),
        (b"GGACGTAA".to_vec(), Some(b"ACGTAC".to_vec())),
    ]
}

fn grep_with_chunks(chunks: &[usize]) -> usize {
    let rs = records();
    let mut shared = GrepCounter::new(b"ACGT");
    let mut start = 0;
    for &len in chunks {
        let mut worker = GrepCounter::new(b"ACGT");
        for (s, x) in &rs[start..start + len] {
            worker.process_record(s, x.as_deref());
        }
        worker.on_batch_complete();
        shared.absorb(&mut worker);
        assert_eq!(worker.count(), 0);
        start += len;
    }
    shared.count()
}

#[test]
fn grep_count_does_not_depend_on_chunking() {
    let one = grep_with_chunks(&[5]);
    assert_eq!(one, 3);
    assert_eq!(grep_with_chunks(&[1, 1, 1, 1, 1]), one);
    assert_eq!(grep_with_chunks(&[2, 3]), one);
    assert_eq!(grep_with_chunks(&[4, 0, 1]), one);
}

fn kmers_with_chunks(chunks: &[usize], reversed: bool) -> std::collections::HashMap<Vec<u8>, usize> {
    let rs = records();
    let mut shared = KmerCounter::new(2).unwrap();
    let mut parts: Vec<(usize, usize)> = Vec::new();
    let mut start = 0;
    for &len in chunks {
        parts.push((start, len));
        start += len;
    }
    if reversed {
        parts.reverse();
    }
    for (start, len) in parts {
        let mut worker = KmerCounter::new(2).unwrap();
        for (s, x) in &rs[start..start + len] {
            worker.process_record(s, x.as_deref());
        }
        // a batch left unfolded is still moved by absorb
        shared.absorb(&mut worker);
    }
    shared.on_batch_complete();
    profile_counts(&shared)
}

#[test]
fn kmer_counts_do_not_depend_on_chunking_or_order() {
    let one = kmers_with_chunks(&[5], false);
    assert_eq!(kmers_with_chunks(&[1, 1, 1, 1, 1], false), one);
    assert_eq!(kmers_with_chunks(&[2, 3], true), one);
    assert_eq!(kmers_with_chunks(&[3, 2], false), one);
    assert_eq!(one.get(b"AC".as_slice()), Some(&7));
    let total: usize = one.values().sum();
    // windows of width 2: 5 + 3 + 5 + 5 + 0 + 2 + 7 + 5
    assert_eq!(total, 32);
}

#[test]
fn record_count_does_not_depend_on_chunking() {
    let mut shared = RecordCounter::new();
    for len in [2usize, 0, 3] {
        let mut worker = RecordCounter::new();
        for _ in 0..len {
            worker.process_record();
        }
        worker.on_batch_complete();
        shared.absorb(&mut worker);
    }
    assert_eq!(shared.count(), 5);
}

#[test]
fn kmer_counter_profile_and_statistics() {
    let mut counter = KmerCounter::new(3).unwrap();
    counter.process_record(b"ATCGATCG", None);
    counter.on_batch_complete();
    let counts = profile_counts(&counter);
    assert_eq!(counts.len(), 4);
    assert_eq!(counts.get(b"ATC".as_slice()), Some(&2));
    assert_eq!(counts.get(b"TCG".as_slice()), Some(&2));
    assert_eq!(counts.get(b"CGA".as_slice()), Some(&1));
    assert_eq!(counts.get(b"GAT".as_slice()), Some(&1));
    assert_eq!(counter.total_kmer_count(), 6);
    assert_eq!(counter.unique_kmer_count(), 4);
    let (kmer, count) = counter.most_frequent_kmer().unwrap();
    assert_eq!(count, 2);
    assert!(kmer == b"ATC".to_vec() || kmer == b"TCG".to_vec());
    assert!(counter.local_kmers().is_empty());
}

#[test]
fn kmer_counter_rejects_zero_k() {
    assert!(matches!(KmerCounter::new(0), Err(ReaderError::InvalidKmerLength)));
}

#[test]
fn kmer_counter_short_record_contributes_nothing() {
    let mut counter = KmerCounter::new(5).unwrap();
    counter.process_record(b"ACG", Some(b"ACGT"));
    counter.process_record(b"ACGTA", None);
    counter.on_batch_complete();
    assert_eq!(counter.total_kmer_count(), 1);
    assert_eq!(counter.unique_kmer_count(), 1);
}

#[test]
fn kmer_counter_counts_mate_windows() {
    let mut counter = KmerCounter::new(2).unwrap();
    counter.process_record(b"AAA", Some(b"AAC"));
    counter.on_batch_complete();
    let counts = profile_counts(&counter);
    assert_eq!(counts.get(b"AA".as_slice()), Some(&3));
    assert_eq!(counts.get(b"AC".as_slice()), Some(&1));
    assert_eq!(counter.total_kmer_count(), 4);
}

#[test]
fn kmer_top_is_sorted_and_truncated() {
    let mut counter = KmerCounter::new(1).unwrap();
    counter.process_record(b"AAAACCCGGT", None);
    counter.on_batch_complete();
    let top = counter.top_kmers(2);
    assert_eq!(top, vec![(b"A".to_vec(), 4), (b"C".to_vec(), 3)]);
    let all = counter.top_kmers(10);
    assert_eq!(all.len(), 4);
    assert_eq!(all[3], (b"T".to_vec(), 1));
    assert!(counter.top_kmers(0).is_empty());
}

#[test]
fn kmer_most_frequent_of_empty_is_none() {
    let counter = KmerCounter::new(4).unwrap();
    assert!(counter.most_frequent_kmer().is_none());
    assert_eq!(counter.total_kmer_count(), 0);
    assert!(counter.get_counts().is_empty());
}
