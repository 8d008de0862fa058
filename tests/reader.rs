use pybq::counters::RecordCounter;
use pybq::error::ReaderError;
use pybq::reader::{BqReader, CursorAction, CursorEvent, ReaderVariant};

#[test]
fn stream_state_opens_lazily_and_stays_exhausted() {
    let mut s = ReaderVariant::new(false);
    assert_eq!(s.next_action(), CursorAction::OpenStream);
    s.apply(CursorEvent::StreamOpened);
    assert_eq!(s.next_action(), CursorAction::PullStreamRecord);
    s.apply(CursorEvent::Produced);
    assert_eq!(s.next_action(), CursorAction::PullStreamRecord);
    s.apply(CursorEvent::StreamEnded);
    assert!(s.is_exhausted());
    for _ in 0..3 {
        assert_eq!(s.next_action(), CursorAction::SignalExhausted);
        s.apply(CursorEvent::StreamOpened);
        s.apply(CursorEvent::BlockRead { has_data: true, n_records: 4 });
        assert!(s.is_exhausted());
    }
}

#[test]
fn block_state_walks_blocks_then_ends() {
    let mut s = ReaderVariant::new(true);
    assert_eq!(s.next_action(), CursorAction::ReadBlock);
    s.apply(CursorEvent::BlockRead { has_data: true, n_records: 2 });
    assert_eq!(s.next_action(), CursorAction::TakeBlockRecord(0));
    s.apply(CursorEvent::Produced);
    assert_eq!(s.next_action(), CursorAction::TakeBlockRecord(1));
    // a failed decode still moves past the record
    s.apply(CursorEvent::Failed);
    assert_eq!(s.next_action(), CursorAction::ReadBlock);
    s.apply(CursorEvent::BlockRead { has_data: true, n_records: 1 });
    assert_eq!(s.next_action(), CursorAction::TakeBlockRecord(0));
    s.apply(CursorEvent::Produced);
    assert_eq!(s.next_action(), CursorAction::ReadBlock);
    s.apply(CursorEvent::BlockRead { has_data: false, n_records: 0 });
    assert_eq!(s.next_action(), CursorAction::SignalExhausted);
    s.apply(CursorEvent::BlockRead { has_data: true, n_records: 3 });
    assert_eq!(s.next_action(), CursorAction::SignalExhausted);
}

#[test]
fn empty_block_ends_the_file() {
    let mut s = ReaderVariant::new(true);
    s.apply(CursorEvent::BlockRead { has_data: true, n_records: 0 });
    assert!(s.is_exhausted());
    assert_eq!(s.next_action(), CursorAction::SignalExhausted);
}

#[test]
fn empty_file_is_exhausted_at_once() {
    // streaming layout: the header reads, the first pull finds nothing
    let mut reader = BqReader::new("empty.bq", None, false);
    assert_eq!(reader.next_action(), Ok(CursorAction::OpenStream));
    reader.apply(CursorEvent::StreamOpened);
    assert_eq!(reader.next_action(), Ok(CursorAction::PullStreamRecord));
    reader.apply(CursorEvent::StreamEnded);
    assert_eq!(reader.next_action(), Ok(CursorAction::SignalExhausted));
    assert_eq!(reader.current_index(), 0);

    // block layout: the first read finds nothing
    let mut vbq = BqReader::new("empty.vbq", Some(2), true);
    assert_eq!(vbq.next_action(), Ok(CursorAction::ReadBlock));
    vbq.apply(CursorEvent::BlockRead { has_data: false, n_records: 0 });
    assert_eq!(vbq.next_action(), Ok(CursorAction::SignalExhausted));

    // a scan over no records counts zero
    let mut counter = RecordCounter::new();
    counter.on_batch_complete();
    assert_eq!(counter.count(), 0);
}

#[test]
fn reader_counts_handed_out_records() {
    let mut reader = BqReader::new("a.vbq", Some(4), true);
    reader.apply(CursorEvent::BlockRead { has_data: true, n_records: 3 });
    reader.apply(CursorEvent::Produced);
    reader.apply(CursorEvent::Failed);
    reader.apply(CursorEvent::Produced);
    assert_eq!(reader.current_index(), 2);
    assert_eq!(reader.next_action(), Ok(CursorAction::ReadBlock));
}

#[test]
fn thread_count_is_at_least_one() {
    let mut reader = BqReader::new("x.bq", Some(0), false);
    assert_eq!(reader.n_threads(), 1);
    reader.set_n_threads(8);
    assert_eq!(reader.n_threads(), 8);
    reader.set_n_threads(0);
    assert_eq!(reader.n_threads(), 1);
    assert_eq!(BqReader::new("x.bq", None, false).n_threads(), 1);
    assert_eq!(BqReader::new("x.bq", Some(3), false).n_threads(), 3);
}

#[test]
fn reader_accessors() {
    let reader = BqReader::new("data/reads.vbq", None, true);
    assert_eq!(reader.path(), "data/reads.vbq");
    assert!(reader.is_vbq());
    assert!(reader.is_open());
    assert_eq!(reader.sequence_length(), Ok(0));
    assert!(reader.check_open().is_ok());
}

#[test]
fn closed_reader_refuses_calls() {
    let mut reader = BqReader::new("x.bq", None, false);
    reader.apply(CursorEvent::StreamOpened);
    reader.close_reader();
    assert!(!reader.is_open());
    assert_eq!(reader.next_action(), Err(ReaderError::Closed));
    assert_eq!(reader.check_open(), Err(ReaderError::Closed));
    assert_eq!(reader.sequence_length(), Err(ReaderError::Closed));
    assert!(matches!(reader.kmer_counter(3), Err(ReaderError::Closed)));
    // a zero k is refused before the reader is looked at
    assert!(matches!(reader.kmer_counter(0), Err(ReaderError::InvalidKmerLength)));
    assert_eq!(reader.path(), "x.bq");
}

#[test]
fn kmer_counter_from_open_reader() {
    let reader = BqReader::new("x.bq", None, false);
    assert!(matches!(reader.kmer_counter(0), Err(ReaderError::InvalidKmerLength)));
    let c = reader.kmer_counter(4).unwrap();
    assert_eq!(c.kmer_length(), 4);
    assert_eq!(c.total_kmer_count(), 0);
}

#[test]
fn closing_a_state_starts_it_afresh() {
    let mut s = ReaderVariant::new(false);
    s.apply(CursorEvent::StreamOpened);
    s.apply(CursorEvent::StreamEnded);
    s.close();
    assert_eq!(s, ReaderVariant::new(false));
    assert!(s.is_open());
    assert!(!s.is_vbq());
}
