//! Content hashes: xxHash3-64, written as 16 lower-case hex digits. A stream is
//! hashed chunk by chunk as it is read, and gives the hash of all its bytes.
use vstd::prelude::*;
use xxhash_rust::xxh3::Xxh3;
use crate::text::{hex, hex_string, pad_left};

verus! {

/// Read buffer size for streamed hashing (1 MiB).
pub const CHUNK_SIZE: usize = 1048576;

#[verifier::external_type_specification]
#[verifier::external_body]
pub struct ExXxh3(Xxh3);

/// The bytes fed so far to an `xxhash_rust::xxh3::Xxh3` streaming hasher.
pub uninterp spec fn xxh3_input(h: Xxh3) -> Seq<u8>;

/// The xxHash3-64 hash (default seed and secret) of a byte sequence.
pub uninterp spec fn xxh3_hash(data: Seq<u8>) -> u64;

/// `Xxh3::new()`: a hasher with the default seed and secret, fed nothing yet.
#[verifier::external_body]
fn xxh3_new() -> (h: Xxh3)
    ensures
        xxh3_input(h) == Seq::<u8>::empty(),
{
    Xxh3::new()
}

/// `Xxh3::update`: feeds `data` after what the hasher was fed before.
#[verifier::external_body]
fn xxh3_update(h: &mut Xxh3, data: &[u8])
    ensures
        xxh3_input(*final(h)) == xxh3_input(*old(h)) + data@,
{
    h.update(data)
}

/// `Xxh3::digest`: the xxHash3-64 of all bytes fed so far (the crate's tests hold
/// the streamed digest to the one-shot `xxh3_64` of the same bytes). It leaves the
/// hasher unchanged.
#[verifier::external_body]
fn xxh3_digest(h: &Xxh3) -> (r: u64)
    ensures
        r == xxh3_hash(xxh3_input(*h)),
{
    h.digest()
}

/// The text of a hash: `format!("{:016x}", hash)`.
pub open spec fn hash_text(data: Seq<u8>) -> Seq<char> {
    pad_left(hex(xxh3_hash(data) as nat), 16, '0')
}

/// The xxHash3-64 of `data`, as 16 lower-case hex digits.
pub fn hash_bytes(data: &[u8]) -> (r: String)
    ensures
        r@ == hash_text(data@),
{
    let mut hasher = xxh3_new();
    xxh3_update(&mut hasher, data);
    assert(xxh3_input(hasher) =~= data@);
    hex_string(xxh3_digest(&hasher), 16)
}

/// Hashing of a stream read chunk by chunk, with a count of the bytes read.
pub struct StreamHasher {
    hasher: Xxh3,
    total: u64,
}

impl StreamHasher {
    /// The bytes fed so far.
    pub closed spec fn input(&self) -> Seq<u8> {
        xxh3_input(self.hasher)
    }

    pub closed spec fn wf(&self) -> bool {
        self.total == xxh3_input(self.hasher).len()
    }

    /// A hasher fed nothing yet.
    pub fn new() -> (r: StreamHasher)
        ensures
            r.wf(),
            r.input() == Seq::<u8>::empty(),
    {
        StreamHasher { hasher: xxh3_new(), total: 0 }
    }

    /// Feeds the next chunk read from the stream.
    pub fn feed(&mut self, chunk: &[u8])
        requires
            old(self).wf(),
            old(self).input().len() + chunk@.len() <= u64::MAX,
        ensures
            final(self).wf(),
            final(self).input() == old(self).input() + chunk@,
    {
        let n = chunk.len();
        xxh3_update(&mut self.hasher, chunk);
        self.total = self.total + n as u64;
    }

    /// The number of bytes fed and their hash text.
    pub fn finish(&self) -> (r: (u64, String))
        requires
            self.wf(),
        ensures
            r.0 == self.input().len(),
            r.1@ == hash_text(self.input()),
    {
        (self.total, hex_string(xxh3_digest(&self.hasher), 16))
    }
}

} // verus!
