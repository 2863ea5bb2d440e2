use vstd::prelude::*;

use sha2::Digest;

use crate::util::push_char;

verus! {

/// The size of each sampled block of a large file: 64 KiB.
pub const BLOCK_SIZE: u64 = 65536;

/// Files smaller than this, 1 MiB, are read whole.
pub const MIN_SIZE: u64 = 1048576;

/// The parts of a file of `len` bytes that its fingerprint reads, as
/// (offset, length) pairs: the whole of a small file; for a large one a block
/// at the start, one around the middle and one at the end. `None` for an
/// empty file, which has no fingerprint.
pub open spec fn sample_spec(len: u64) -> Option<Seq<(u64, u64)>> {
    if len == 0 {
        None
    } else if len < MIN_SIZE {
        Some(seq![(0u64, len)])
    } else {
        Some(
            seq![
                (0u64, BLOCK_SIZE),
                ((len / 2 - BLOCK_SIZE / 2) as u64, BLOCK_SIZE),
                ((len - BLOCK_SIZE) as u64, BLOCK_SIZE),
            ],
        )
    }
}

/// The parts of a file of `len` bytes that its fingerprint reads.
pub fn sample_ranges(len: u64) -> (r: Option<Vec<(u64, u64)>>)
    ensures
        match r {
            Some(v) => sample_spec(len) == Some(v@),
            None => sample_spec(len) is None,
        },
{
    if len == 0 {
        return None;
    }
    let mut v: Vec<(u64, u64)> = Vec::new();
    if len < MIN_SIZE {
        v.push((0, len));
        assert(v@ =~= seq![(0u64, len)]);
    } else {
        v.push((0, BLOCK_SIZE));
        v.push((len / 2 - BLOCK_SIZE / 2, BLOCK_SIZE));
        v.push((len - BLOCK_SIZE, BLOCK_SIZE));
        assert(v@ =~= seq![
            (0u64, BLOCK_SIZE),
            ((len / 2 - BLOCK_SIZE / 2) as u64, BLOCK_SIZE),
            ((len - BLOCK_SIZE) as u64, BLOCK_SIZE),
        ]);
    }
    Some(v)
}

/// The SHA-256 digest of a byte string.
pub uninterp spec fn sha256_of(data: Seq<u8>) -> Seq<u8>;

/// Relies on `sha2::Sha256::digest`: the 32-byte SHA-256 digest of the data.
#[verifier::external_body]
fn sha256(data: &[u8]) -> (r: Vec<u8>)
    ensures
        r@ == sha256_of(data@),
        r@.len() == 32,
{
    sha2::Sha256::digest(data).to_vec()
}

/// The lower-case hexadecimal digit of a value below 16.
pub open spec fn hex_digit(v: u8) -> char {
    if v < 10 {
        (48 + v) as char
    } else {
        (87 + v) as char
    }
}

/// Two lower-case hexadecimal digits for each byte.
pub open spec fn hex_of(bytes: Seq<u8>) -> Seq<char>
    decreases bytes.len(),
{
    if bytes.len() == 0 {
        Seq::empty()
    } else {
        hex_of(bytes.drop_last()) + seq![hex_digit(bytes.last() / 16), hex_digit(bytes.last() % 16)]
    }
}

fn hex_char(v: u8) -> (c: char)
    requires
        v < 16,
    ensures
        c == hex_digit(v),
{
    if v < 10 {
        (48 + v) as char
    } else {
        (87 + v) as char
    }
}

/// Writes each byte as two lower-case hexadecimal digits.
pub fn hex_string(bytes: &[u8]) -> (r: String)
    ensures
        r@ == hex_of(bytes@),
{
    let mut out = String::new();
    let mut i: usize = 0;
    while i < bytes.len()
        invariant
            0 <= i <= bytes@.len(),
            out@ == hex_of(bytes@.subrange(0, i as int)),
        decreases bytes@.len() - i,
    {
        let b = bytes[i];
        assert(bytes@.subrange(0, i as int + 1).drop_last() =~= bytes@.subrange(0, i as int));
        push_char(&mut out, hex_char(b / 16));
        push_char(&mut out, hex_char(b % 16));
        assert(out@ =~= hex_of(bytes@.subrange(0, i as int + 1)));
        i = i + 1;
    }
    assert(bytes@.subrange(0, i as int) =~= bytes@);
    out
}

/// The fingerprint of the sampled contents of a file: their SHA-256 digest,
/// as 64 lower-case hexadecimal digits.
pub fn fingerprint(sample: &[u8]) -> (r: String)
    ensures
        r@ == hex_of(sha256_of(sample@)),
{
    let digest = sha256(sample);
    hex_string(digest.as_slice())
}

} // verus!
