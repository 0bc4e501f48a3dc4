//! The content fingerprint of a file: its BLAKE3 digest in lowercase hexadecimal.

use vstd::prelude::*;
use vstd::slice::slice_subrange;

verus! {

/// The streaming state of the BLAKE3 hash function.
#[verifier::external_type_specification]
#[verifier::external_body]
pub struct ExHasher(blake3::Hasher);

/// The bytes that a hasher has been fed so far, in order.
pub uninterp spec fn hashed_input(hasher: blake3::Hasher) -> Seq<u8>;

/// The 32 bytes of the BLAKE3 digest of `input`, as `blake3::hash` returns them.
pub uninterp spec fn blake3_digest(input: Seq<u8>) -> Seq<u8>;

/// A hasher that has been fed nothing.
///
/// Trusted: wraps `blake3::Hasher::new`.
#[verifier::external_body]
fn hasher_new() -> (r: blake3::Hasher)
    ensures
        hashed_input(r) == Seq::<u8>::empty(),
{
    blake3::Hasher::new()
}

/// Feeds `chunk` to the hasher.
///
/// Trusted: wraps `blake3::Hasher::update`, which adds the bytes to the end of
/// the input; the hasher may be fed any number of times.
#[verifier::external_body]
fn hasher_update(hasher: &mut blake3::Hasher, chunk: &[u8])
    ensures
        hashed_input(*final(hasher)) == hashed_input(*old(hasher)) + chunk@,
{
    hasher.update(chunk);
}

/// The digest of what the hasher has been fed.
///
/// Trusted: wraps `blake3::Hasher::finalize`, whose result is the hash of the
/// whole input however it was cut into pieces, and is 32 bytes long.
#[verifier::external_body]
fn hasher_digest(hasher: &blake3::Hasher) -> (r: Vec<u8>)
    ensures
        r@ == blake3_digest(hashed_input(*hasher)),
        r@.len() == 32,
{
    hasher.finalize().as_bytes().to_vec()
}

/// The lowercase hexadecimal digit of a value below 16.
pub open spec fn hex_digit(n: nat) -> char
    recommends
        n < 16,
{
    if n < 10 {
        ((48 + n) as u8) as char
    } else {
        ((87 + n) as u8) as char
    }
}

/// `bytes` in lowercase hexadecimal, two digits for each byte.
pub open spec fn hex_spec(bytes: Seq<u8>) -> Seq<char> {
    Seq::new(
        2 * bytes.len(),
        |i: int|
            if i % 2 == 0 {
                hex_digit((bytes[i / 2] / 16) as nat)
            } else {
                hex_digit((bytes[i / 2] % 16) as nat)
            },
    )
}

/// The fingerprint of a byte sequence.
pub open spec fn fingerprint_of(input: Seq<u8>) -> Seq<char> {
    hex_spec(blake3_digest(input))
}

/// Whether `c` is a lowercase hexadecimal digit.
pub open spec fn is_hex_char(c: char) -> bool {
    ('0' <= c <= '9') || ('a' <= c <= 'f')
}

/// Whether every character of `s` is a lowercase hexadecimal digit.
pub open spec fn all_hex(s: Seq<char>) -> bool {
    forall|i: int| 0 <= i < s.len() ==> is_hex_char(#[trigger] s[i])
}

/// The number of characters of a fingerprint: two for each of the 32 bytes of
/// a digest.
pub const FINGERPRINT_LENGTH: usize = 64;

/// The hexadecimal digit of a value below 16.
fn hex_char(n: u8) -> (r: char)
    requires
        n < 16,
    ensures
        r == hex_digit(n as nat),
        is_hex_char(r),
{
    if n < 10 {
        (48u8 + n) as char
    } else {
        (87u8 + n) as char
    }
}

/// Writes `bytes` in lowercase hexadecimal: two digits for each byte.
pub fn to_hex(bytes: &Vec<u8>) -> (r: Vec<char>)
    ensures
        r@ == hex_spec(bytes@),
        r@.len() == 2 * bytes@.len(),
        all_hex(r@),
{
    let mut out: Vec<char> = Vec::new();
    let mut i: usize = 0;
    while i < bytes.len()
        invariant
            i <= bytes@.len(),
            out@.len() == 2 * i,
            forall|j: int| 0 <= j < 2 * i ==> out@[j] == hex_spec(bytes@)[j],
            all_hex(out@),
        decreases bytes@.len() - i,
    {
        let b: u8 = bytes[i];
        out.push(hex_char(b / 16));
        out.push(hex_char(b % 16));
        i += 1;
    }
    assert(out@ =~= hex_spec(bytes@));
    out
}

/// The number of bytes that are hashed at a time.
pub const CHUNK_SIZE: usize = 8192;

/// A fingerprint in the making: bytes go in piece by piece, and the
/// fingerprint of all of them can be asked for at any moment.
pub struct Fingerprinter {
    hasher: blake3::Hasher,
}

impl View for Fingerprinter {
    type V = Seq<u8>;

    /// The bytes taken in so far.
    closed spec fn view(&self) -> Seq<u8> {
        hashed_input(self.hasher)
    }
}

impl Fingerprinter {
    /// A fingerprinter that has taken in nothing.
    pub fn new() -> (r: Fingerprinter)
        ensures
            r@ == Seq::<u8>::empty(),
    {
        Fingerprinter { hasher: hasher_new() }
    }

    /// Takes in the next piece of the content.
    pub fn update(&mut self, chunk: &[u8])
        ensures
            final(self)@ == old(self)@ + chunk@,
    {
        hasher_update(&mut self.hasher, chunk);
    }

    /// The fingerprint of everything taken in so far: 64 lowercase
    /// hexadecimal digits.
    pub fn finish(&self) -> (r: String)
        ensures
            r@ == fingerprint_of(self@),
            r@.len() == FINGERPRINT_LENGTH,
            all_hex(r@),
    {
        crate::text::string_of(&to_hex(&hasher_digest(&self.hasher)))
    }
}

/// The fingerprint of `data`, taken in pieces of `chunk_size` bytes, or in
/// one piece where `chunk_size` is zero. The size of the pieces has no
/// influence on the result.
pub fn fingerprint_in_chunks(data: &[u8], chunk_size: usize) -> (r: String)
    ensures
        r@ == fingerprint_of(data@),
        r@.len() == FINGERPRINT_LENGTH,
        all_hex(r@),
{
    let mut state = Fingerprinter::new();
    let len: usize = data.len();
    let mut done: usize = 0;
    assert(data@.take(0) =~= Seq::<u8>::empty());
    while done < len
        invariant
            len == data@.len(),
            done <= len,
            state@ == data@.take(done as int),
        decreases len - done,
    {
        let step: usize = if chunk_size == 0 || len - done < chunk_size {
            len - done
        } else {
            chunk_size
        };
        let chunk = slice_subrange(data, done, done + step);
        state.update(chunk);
        assert(data@.take(done as int) + data@.subrange(done as int, done + step) =~= data@.take(
            done + step,
        ));
        done += step;
    }
    assert(data@.take(len as int) =~= data@);
    state.finish()
}

/// The fingerprint of the content of a file: 64 lowercase hexadecimal
/// digits, the same for the same bytes.
pub fn compute_file_hash(data: &[u8]) -> (r: String)
    ensures
        r@ == fingerprint_of(data@),
        r@.len() == FINGERPRINT_LENGTH,
        all_hex(r@),
{
    fingerprint_in_chunks(data, CHUNK_SIZE)
}

/// The bytes of all `pieces`, one piece after another.
pub open spec fn joined(pieces: Seq<Vec<u8>>) -> Seq<u8>
    decreases pieces.len(),
{
    if pieces.len() == 0 {
        Seq::<u8>::empty()
    } else {
        joined(pieces.drop_last()) + pieces.last()@
    }
}

/// The fingerprint of a content that comes in pieces of any sizes: it is the
/// fingerprint of the pieces put together, wherever the cuts are.
pub fn fingerprint_pieces(pieces: &Vec<Vec<u8>>) -> (r: String)
    ensures
        r@ == fingerprint_of(joined(pieces@)),
        r@.len() == FINGERPRINT_LENGTH,
        all_hex(r@),
{
    let mut state = Fingerprinter::new();
    let mut i: usize = 0;
    assert(pieces@.take(0) =~= Seq::<Vec<u8>>::empty());
    while i < pieces.len()
        invariant
            i <= pieces@.len(),
            state@ == joined(pieces@.take(i as int)),
        decreases pieces@.len() - i,
    {
        proof {
            let t = pieces@.take(i + 1);
            assert(t.drop_last() =~= pieces@.take(i as int));
            assert(t.last() == pieces@[i as int]);
        }
        state.update(pieces[i].as_slice());
        i += 1;
    }
    assert(pieces@.take(pieces@.len() as int) =~= pieces@);
    state.finish()
}

} // verus!
