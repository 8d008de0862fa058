//! A decoded record: its nucleotide letters and the bytes they came from.

use crate::counters::{bits_of, popcount_bytes};
use crate::error::ReaderError;
use crate::kmer::{is_most_frequent, profile, KmerTable};
use vstd::prelude::*;
use vstd::string::StringExecFns;

verus! {

/// The letter shown for a decoded byte: `A`, `C`, `G` or `T` for those
/// ASCII codes, `N` for any other byte.
pub open spec fn base_letter(b: u8) -> char {
    if b == 65 {
        'A'
    } else if b == 67 {
        'C'
    } else if b == 71 {
        'G'
    } else if b == 84 {
        'T'
    } else {
        'N'
    }
}

/// The letters of a decoded byte sequence, one per byte.
pub open spec fn letters_of(bytes: Seq<u8>) -> Seq<char> {
    Seq::new(bytes.len(), |i: int| base_letter(bytes[i]))
}

/// The letters of a decoded byte sequence, one per byte.
pub fn bytes_to_sequence(bytes: &[u8]) -> (r: String)
    ensures
        r@ == letters_of(bytes@),
{
    let mut r = String::new();
    let mut i: usize = 0;
    while i < bytes.len()
        invariant
            i <= bytes@.len(),
            r@ == letters_of(bytes@.subrange(0, i as int)),
        decreases bytes@.len() - i,
    {
        let b = bytes[i];
        let letter: &str = if b == 65 {
            "A"
        } else if b == 67 {
            "C"
        } else if b == 71 {
            "G"
        } else if b == 84 {
            "T"
        } else {
            "N"
        };
        proof {
            reveal_strlit("A");
            reveal_strlit("C");
            reveal_strlit("G");
            reveal_strlit("T");
            reveal_strlit("N");
            assert(letter@ =~= seq![base_letter(b)]);
        }
        r.append(letter);
        i += 1;
        assert(r@ =~= letters_of(bytes@.subrange(0, i as int)));
    }
    assert(bytes@.subrange(0, i as int) =~= bytes@);
    r
}

/// One record as handed out by sequential iteration.
pub struct BqRecord {
    pub sequence: String,
    pub encoded: Vec<u8>,
}

impl BqRecord {
    /// The bytes of the letter sequence, as stored in the string.
    pub open spec fn sequence_bytes(&self) -> Seq<u8> {
        vstd::utf8::encode_utf8(self.sequence@)
    }

    /// A record from its letters and its bytes.
    pub fn new(sequence: String, encoded: Vec<u8>) -> (r: Self)
        ensures
            r.sequence@ == sequence@,
            r.encoded@ == encoded@,
    {
        BqRecord { sequence, encoded }
    }

    /// A record from its letters and its bytes.
    pub fn py_new(sequence: String, encoded: Vec<u8>) -> (r: Self)
        ensures
            r.sequence@ == sequence@,
            r.encoded@ == encoded@,
    {
        Self::new(sequence, encoded)
    }

    /// The record of a decoded byte sequence: its letters, and the bytes
    /// themselves.
    pub fn from_decoded(bytes: Vec<u8>) -> (r: Self)
        ensures
            r.sequence@ == letters_of(bytes@),
            r.encoded@ == bytes@,
    {
        let sequence = bytes_to_sequence(bytes.as_slice());
        BqRecord { sequence, encoded: bytes }
    }

    /// The letters.
    pub fn get_sequence(&self) -> (r: &str)
        ensures
            r@ == self.sequence@,
    {
        self.sequence.as_str()
    }

    /// Number of stored bytes.
    pub fn data_len(&self) -> (r: usize)
        ensures
            r == self.encoded@.len(),
    {
        self.encoded.len()
    }

    /// Shape of the stored bytes seen as a one-dimensional array.
    pub fn shape(&self) -> (r: (usize,))
        ensures
            r.0 == self.encoded@.len(),
    {
        (self.encoded.len(),)
    }

    /// Strides of the stored bytes seen as a one-dimensional array.
    pub fn strides(&self) -> (r: (isize,))
        ensures
            r.0 == 1,
    {
        (1,)
    }

    /// Element type of the stored bytes seen as an array.
    pub fn dtype(&self) -> (r: &'static str)
        ensures
            r@ == "uint8"@,
    {
        "uint8"
    }

    /// Number of set bits over the stored bytes.
    pub fn popcnt(&self) -> (r: u64)
        requires
            bits_of(self.encoded@) <= u64::MAX,
        ensures
            r == bits_of(self.encoded@),
    {
        popcount_bytes(self.encoded.as_slice())
    }

    /// Counts of every window of width `k` over the letters; a `k` of zero is
    /// refused, a `k` longer than the letters gives no window.
    pub fn kmers(&self, k: usize) -> (r: Result<KmerTable, ReaderError>)
        ensures
            k == 0 <==> r is Err,
            r matches Err(e) ==> e == ReaderError::InvalidKmerLength,
            r matches Ok(t) ==> t.well_formed() && t@ == profile(self.sequence_bytes(), k as nat),
    {
        if k == 0 {
            return Err(ReaderError::InvalidKmerLength);
        }
        let bytes = self.sequence.as_str().as_bytes();
        let len: usize = bytes.len();
        assert(crate::kmer::window_count(bytes@, k as nat) <= len);
        let mut t = KmerTable::new();
        t.add_windows(bytes, k);
        proof {
            crate::kmer::law_merge_commutative(Map::empty(), profile(bytes@, k as nat));
            crate::kmer::law_merge_empty(profile(bytes@, k as nat));
        }
        Ok(t)
    }

    /// Number of distinct windows of width `k` over the letters.
    pub fn kmer_count(&self, k: usize) -> (r: Result<usize, ReaderError>)
        ensures
            k == 0 <==> r is Err,
            r matches Err(e) ==> e == ReaderError::InvalidKmerLength,
            r matches Ok(n) ==> n == profile(self.sequence_bytes(), k as nat).dom().len(),
    {
        let t = self.kmers(k)?;
        Ok(t.len())
    }

    /// A most frequent window of width `k` over the letters, with its count;
    /// `None` when there is no window. Ties may go either way.
    pub fn most_frequent_kmer(&self, k: usize) -> (r: Result<Option<(Vec<u8>, usize)>, ReaderError>)
        ensures
            k == 0 <==> r is Err,
            r matches Err(e) ==> e == ReaderError::InvalidKmerLength,
            r matches Ok(o) ==> (o.is_none() <==> profile(self.sequence_bytes(), k as nat).dom().len() == 0),
            r matches Ok(Some((w, c))) ==> is_most_frequent(profile(self.sequence_bytes(), k as nat), w@, c as nat),
    {
        let t = self.kmers(k)?;
        proof {
            t.lemma_positive();
        }
        Ok(t.most_frequent())
    }
}

} // verus!
