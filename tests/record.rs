use pybq::error::ReaderError;
use pybq::record::{bytes_to_sequence, BqRecord};
use std::collections::HashMap;

fn as_map(entries: Vec<(Vec<u8>, usize)>) -> HashMap<Vec<u8>, usize> {
    entries.into_iter().collect()
}

#[test]
fn test_kmers_basic() {
    let record = BqRecord::new("ATCGATCG".to_string(), vec![]);
    let kmers = as_map(record.kmers(3).unwrap().entries());

    let expected = vec![
        (b"ATC".to_vec(), 2),
        (b"TCG".to_vec(), 2),
        (b"CGA".to_vec(), 1),
        (b"GAT".to_vec(), 1),
    ]
    .into_iter()
    .collect::<HashMap<_, _>>();

    assert_eq!(kmers, expected);
}

#[test]
fn test_kmers_empty_sequence() {
    let record = BqRecord::new("".to_string(), vec![]);
    let kmers = record.kmers(3).unwrap();
    assert!(kmers.is_empty());
}

#[test]
fn test_kmers_k_too_large() {
    let record = BqRecord::new("AT".to_string(), vec![]);
    let kmers = record.kmers(5).unwrap();
    assert!(kmers.is_empty());
}

#[test]
fn test_kmers_k_zero() {
    let record = BqRecord::new("ATCG".to_string(), vec![]);
    let result = record.kmers(0);
    assert!(result.is_err());
}

#[test]
fn test_kmer_count() {
    let record = BqRecord::new("ATCGATCG".to_string(), vec![]);
    let count = record.kmer_count(3).unwrap();
    assert_eq!(count, 4); // 4 unique 3-mers
}

#[test]
fn test_most_frequent_kmer() {
    let record = BqRecord::new("ATCGATCG".to_string(), vec![]);
    let most_frequent = record.most_frequent_kmer(3).unwrap();

    // Either "ATC" or "TCG" should be returned (both have count 2)
    assert!(most_frequent.is_some());
    let (kmer, count) = most_frequent.unwrap();
    assert_eq!(count, 2);
    assert!(kmer == b"ATC".to_vec() || kmer == b"TCG".to_vec());
}

#[test]
fn test_most_frequent_kmer_empty() {
    let record = BqRecord::new("".to_string(), vec![]);
    let most_frequent = record.most_frequent_kmer(3).unwrap();
    assert!(most_frequent.is_none());
}

#[test]
fn kmer_errors_name_the_length() {
    let record = BqRecord::new("ACGT".to_string(), vec![]);
    assert_eq!(record.kmer_count(0), Err(ReaderError::InvalidKmerLength));
    assert!(matches!(record.most_frequent_kmer(0), Err(ReaderError::InvalidKmerLength)));
}

#[test]
fn decoded_bytes_become_letters() {
    assert_eq!(bytes_to_sequence(b"ACGTX"), "ACGTN");
    assert_eq!(bytes_to_sequence(&[0, 255, 97]), "NNN");
    assert_eq!(bytes_to_sequence(b""), "");
    let record = BqRecord::from_decoded(b"GATTACA!".to_vec());
    assert_eq!(record.get_sequence(), "GATTACAN");
    assert_eq!(record.encoded, b"GATTACA!".to_vec());
    assert_eq!(record.data_len(), 8);
}

#[test]
fn record_array_shape() {
    let record = BqRecord::py_new("AC".to_string(), vec![1, 2, 3]);
    assert_eq!(record.shape(), (3,));
    assert_eq!(record.strides(), (1,));
    assert_eq!(record.dtype(), "uint8");
}

#[test]
fn record_popcnt_counts_stored_bytes() {
    let record = BqRecord::new("ACG".to_string(), vec![0b11111111, 0b00000000, 0b10101010]);
    assert_eq!(record.popcnt(), 12);
}
