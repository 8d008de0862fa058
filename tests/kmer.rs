use pybq::kmer::{bytes_equal, copy_bytes, KmerTable};
use pybq::search::contains_pattern;

#[test]
fn table_add_and_merge() {
    let mut a = KmerTable::new();
    a.add(b"AC", 2);
    a.add(b"GT", 1);
    a.add(b"AC", 1);
    assert_eq!(a.get(b"AC"), Some(3));
    assert_eq!(a.get(b"TT"), None);
    assert_eq!(a.len(), 2);
    assert_eq!(a.total_count(), 4);

    let mut b = KmerTable::new();
    b.add(b"GT", 5);
    b.add(b"TT", 1);
    a.merge_from(&mut b);
    assert!(b.is_empty());
    assert_eq!(a.get(b"GT"), Some(6));
    assert_eq!(a.get(b"TT"), Some(1));
    assert_eq!(a.total_count(), 10);
    assert_eq!(a.most_frequent(), Some((b"GT".to_vec(), 6)));
}

#[test]
fn table_windows() {
    let mut t = KmerTable::new();
    t.add_windows(b"ATCGATCG", 3);
    assert_eq!(t.total_count(), 6);
    assert_eq!(t.len(), 4);
    t.add_windows(b"AT", 3);
    t.add_windows(b"ATCG", 0);
    assert_eq!(t.total_count(), 6);
    t.add_windows(b"ATC", 3);
    assert_eq!(t.get(b"ATC"), Some(3));
}

#[test]
fn byte_helpers() {
    assert!(bytes_equal(b"ACGT", b"ACGT"));
    assert!(!bytes_equal(b"ACGT", b"ACGA"));
    assert!(!bytes_equal(b"ACG", b"ACGT"));
    assert_eq!(copy_bytes(b"xyz"), b"xyz".to_vec());
}

#[test]
fn substring_search() {
    assert!(contains_pattern(b"TTTACGTTT", b"ACGT"));
    assert!(!contains_pattern(b"TTTACGTTT", b"ACGA"));
    assert!(contains_pattern(b"", b""));
    assert!(!contains_pattern(b"", b"A"));
    let long = vec![b'A'; 100];
    let mut hay = long.clone();
    hay.extend_from_slice(b"CG");
    assert!(contains_pattern(&hay, b"ACG"));
    assert!(!contains_pattern(&long, b"ACG"));
}
