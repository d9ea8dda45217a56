//! Checksums of files and of directories.
use vstd::prelude::*;
use sha2::Digest;

use crate::text::same;

verus! {

/// The SHA-256 digest of a sequence of bytes.
pub uninterp spec fn sha256_of(data: Seq<u8>) -> Seq<u8>;

/// `sha2::Sha256::digest`: the digest is a function of the bytes alone, and
/// is 32 bytes long.
#[verifier::external_body]
fn sha256(data: &Vec<u8>) -> (r: Vec<u8>)
    ensures
        r@ == sha256_of(data@),
        r@.len() == 32,
{
    sha2::Sha256::digest(data).to_vec()
}

/// The hexadecimal digit of a number below sixteen, in lower case.
pub open spec fn hex_digit(d: int) -> char {
    "0123456789abcdef"@[d]
}

/// Two hexadecimal digits for each byte, the high one first.
pub open spec fn hex_text(data: Seq<u8>) -> Seq<char>
    decreases data.len(),
{
    if data.len() == 0 {
        Seq::empty()
    } else {
        hex_text(data.drop_last()).push(hex_digit(data.last() as int / 16)).push(
            hex_digit(data.last() as int % 16),
        )
    }
}

/// `hex::encode`: the bytes as lower case hexadecimal digits, two for each.
#[verifier::external_body]
fn hex_encode(data: &Vec<u8>) -> (r: String)
    ensures
        r@ == hex_text(data@),
{
    hex::encode(data)
}

/// The bytes of the files, one file after the other.
pub open spec fn joined(files: Seq<Vec<u8>>) -> Seq<u8>
    decreases files.len(),
{
    if files.len() == 0 {
        Seq::empty()
    } else {
        joined(files.drop_last()) + files.last()@
    }
}

/// The checksum of a sequence of bytes: its SHA-256 digest in hexadecimal.
pub open spec fn checksum(data: Seq<u8>) -> Seq<char> {
    hex_text(sha256_of(data))
}

/// The checksum of one file, given its bytes.
pub fn compute_file_hash(data: &Vec<u8>) -> (r: String)
    ensures
        r@ == checksum(data@),
        r@.len() == 64,
{
    let d = sha256(data);
    proof {
        hex_text_len(d@);
    }
    hex_encode(&d)
}

/// The checksum of a directory, given the bytes of its files in the order in
/// which they are met: that of all the bytes, one file after the other.
pub fn compute_dir_hash(files: &Vec<Vec<u8>>) -> (r: String)
    ensures
        r@ == checksum(joined(files@)),
        r@.len() == 64,
{
    let mut all: Vec<u8> = Vec::new();
    let mut i: usize = 0;
    assert(files@.take(0).len() == 0);
    while i < files.len()
        invariant
            i <= files@.len(),
            all@ == joined(files@.take(i as int)),
        decreases files@.len() - i,
    {
        let mut j: usize = 0;
        let ghost before = all@;
        while j < files[i].len()
            invariant
                i < files@.len(),
                j <= files@[i as int]@.len(),
                all@ == before + files@[i as int]@.take(j as int),
            decreases files@[i as int]@.len() - j,
        {
            let b: u8 = files[i][j];
            assert(files@[i as int]@.take(j + 1) =~= files@[i as int]@.take(j as int).push(b));
            all.push(b);
            j = j + 1;
        }
        proof {
            assert(files@[i as int]@.take(j as int) =~= files@[i as int]@);
            assert(files@.take(i + 1).drop_last() =~= files@.take(i as int));
        }
        i = i + 1;
    }
    assert(files@.take(files@.len() as int) =~= files@);
    compute_file_hash(&all)
}

/// Compares the bytes of a file with a checksum.
pub fn verify_checksum(data: &Vec<u8>, expected: &str) -> (r: bool)
    ensures
        r == (checksum(data@) == expected@),
{
    let actual = compute_file_hash(data);
    same(actual.as_str(), expected)
}

/// Bytes are written with two digits each.
pub proof fn hex_text_len(data: Seq<u8>)
    ensures
        hex_text(data).len() == 2 * data.len(),
    decreases data.len(),
{
    if data.len() > 0 {
        hex_text_len(data.drop_last());
    }
}

/// Each byte is written as two digits, the high one first.
pub proof fn two_digits_for_each_byte(data: Seq<u8>, i: int)
    requires
        0 <= i < data.len(),
    ensures
        hex_text(data).len() == 2 * data.len(),
        hex_text(data)[2 * i] == "0123456789abcdef"@[data[i] as int / 16],
        hex_text(data)[2 * i + 1] == "0123456789abcdef"@[data[i] as int % 16],
    decreases data.len(),
{
    hex_text_len(data);
    hex_text_len(data.drop_last());
    if i < data.len() - 1 {
        two_digits_for_each_byte(data.drop_last(), i);
        assert(data.drop_last()[i] == data[i]);
    }
}

/// The checksum of a directory is that of all the bytes of its files, in their order.
pub proof fn files_are_joined_in_order(files: Seq<Vec<u8>>, f: Vec<u8>)
    ensures
        joined(files.push(f)) == joined(files) + f@,
        joined(Seq::empty()) == Seq::<u8>::empty(),
{
    assert(files.push(f).drop_last() =~= files);
}

} // verus!
