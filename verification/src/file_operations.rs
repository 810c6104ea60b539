//! The file-operation benchmark: its measured results, the chunking
//! plan for writing a file of a given size, and the content hashing
//! shared by the disk and RAM hash measurements.
//!
//! The reads and writes themselves are performed by the surrounding
//! application; the library supplies the plan, the random data, and
//! the hash of in-memory content.

use vstd::prelude::*;
use sha2::Digest;
use crate::text::{digit_char, digit_str};

verus! {

/// Durations, in milliseconds, of the five measured file operations.
pub struct FileOperationResults {
    pub write_time: u64,
    pub read_time: u64,
    pub ram_load_time: u64,
    pub disk_hash_time: u64,
    pub ram_hash_time: u64,
}

/// The file-operation benchmark.
pub struct FileOperations;

impl FileOperations {
    pub fn new() -> (r: FileOperations)
        ensures
            r == (FileOperations {  }),
    {
        FileOperations
    }

    /// How a file of `size` bytes is written with a buffer of
    /// `chunk` bytes: so many full chunks, then the remainder.
    pub fn chunk_plan(&self, size: usize, chunk: usize) -> (r: (usize, usize))
        requires
            chunk > 0,
        ensures
            r.0 == size as int / chunk as int,
            r.1 == size as int % chunk as int,
            r.0 * chunk + r.1 == size,
            r.1 < chunk,
    {
        proof {
            vstd::arithmetic::div_mod::lemma_fundamental_div_mod(size as int, chunk as int);
            assert((size as int / chunk as int) * chunk as int == chunk as int * (size as int
                / chunk as int)) by (nonlinear_arith);
        }
        (size / chunk, size % chunk)
    }
}

/// What SHA-256 returns on a byte sequence.  The digest depends on the
/// bytes alone; its value is stated nowhere and checked against the
/// real implementation only by tests.
pub uninterp spec fn sha256_of(data: Seq<u8>) -> Seq<u8>;

/// Relies on `sha2::Sha256::digest`: a 32-byte digest computed from
/// the input bytes alone.
#[verifier::external_body]
fn sha256_digest(data: &Vec<u8>) -> (r: Vec<u8>)
    ensures
        r@ == sha256_of(data@),
        r@.len() == 32,
{
    sha2::Sha256::digest(data.as_slice()).to_vec()
}

/// Lower-case hex character for a value below sixteen.
pub open spec fn hex_char(d: nat) -> char {
    if d < 10 {
        digit_char(d)
    } else if d == 10 {
        'a'
    } else if d == 11 {
        'b'
    } else if d == 12 {
        'c'
    } else if d == 13 {
        'd'
    } else if d == 14 {
        'e'
    } else {
        'f'
    }
}

/// Lower-case hex rendering of a byte sequence, two characters per
/// byte, high digit first.
pub open spec fn spec_hex(data: Seq<u8>) -> Seq<char>
    decreases data.len(),
{
    if data.len() == 0 {
        Seq::empty()
    } else {
        spec_hex(data.drop_last()) + seq![
            hex_char((data.last() / 16) as nat),
            hex_char((data.last() % 16) as nat),
        ]
    }
}

/// One-character string for a hex digit value.
fn hex_str(d: u8) -> (r: &'static str)
    requires
        d < 16,
    ensures
        r@ =~= seq![hex_char(d as nat)],
{
    if d < 10 {
        digit_str(d as u64)
    } else if d == 10 {
        proof {
            reveal_strlit("a");
        }
        "a"
    } else if d == 11 {
        proof {
            reveal_strlit("b");
        }
        "b"
    } else if d == 12 {
        proof {
            reveal_strlit("c");
        }
        "c"
    } else if d == 13 {
        proof {
            reveal_strlit("d");
        }
        "d"
    } else if d == 14 {
        proof {
            reveal_strlit("e");
        }
        "e"
    } else {
        proof {
            reveal_strlit("f");
        }
        "f"
    }
}

/// Lower-case hex rendering of bytes.
pub fn to_hex(data: &Vec<u8>) -> (r: String)
    ensures
        r@ == spec_hex(data@),
{
    let mut s = String::new();
    let n = data.len();
    let mut i: usize = 0;
    proof {
        assert(data@.subrange(0, 0) =~= Seq::<u8>::empty());
    }
    while i < n
        invariant
            n == data@.len(),
            0 <= i <= n,
            s@ == spec_hex(data@.subrange(0, i as int)),
        decreases n - i,
    {
        proof {
            assert(data@.subrange(0, i + 1).drop_last() =~= data@.subrange(0, i as int));
            assert(data@.subrange(0, i + 1).last() == data@[i as int]);
        }
        let b = data[i];
        s.append(hex_str(b / 16));
        s.append(hex_str(b % 16));
        proof {
            assert(s@ =~= spec_hex(data@.subrange(0, i + 1)));
        }
        i = i + 1;
    }
    proof {
        assert(data@.subrange(0, n as int) =~= data@);
    }
    s
}

impl FileOperations {
    /// The content hash reported by the two hash measurements: the
    /// lower-case hex form of the SHA-256 digest of the bytes.
    pub fn calculate_ram_hash(&self, data: &Vec<u8>) -> (r: String)
        ensures
            r@ == spec_hex(sha256_of(data@)),
            r@.len() == 64,
    {
        let digest = sha256_digest(data);
        let ghost dv = digest@;
        let r = to_hex(&digest);
        proof {
            lemma_spec_hex_len(dv);
        }
        r
    }
}

pub proof fn lemma_spec_hex_len(data: Seq<u8>)
    ensures
        spec_hex(data).len() == 2 * data.len(),
    decreases data.len(),
{
    if data.len() > 0 {
        lemma_spec_hex_len(data.drop_last());
    }
}

/// Relies on `rand::Rng::fill`: fills the slice with random bytes in
/// place; the length cannot change.  Nothing is promised of the
/// values.
#[verifier::external_body]
fn fill_random(buf: &mut Vec<u8>)
    ensures
        final(buf)@.len() == old(buf)@.len(),
{
    rand::Rng::fill(&mut rand::thread_rng(), buf.as_mut_slice());
}

/// A buffer of `len` random bytes for one write of the benchmark
/// file.
pub fn random_chunk(len: usize) -> (r: Vec<u8>)
    ensures
        r@.len() == len,
{
    let mut buf: Vec<u8> = Vec::new();
    let mut i: usize = 0;
    while i < len
        invariant
            0 <= i <= len,
            buf@.len() == i,
        decreases len - i,
    {
        buf.push(0);
        i = i + 1;
    }
    fill_random(&mut buf);
    buf
}

} // verus!
