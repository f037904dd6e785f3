//! The envelope cipher: seals a byte string under a fixed 256-bit key with a
//! fresh nonce, and opens such envelopes again.

use cocoon::MiniCocoon;
use vstd::prelude::*;

verus! {

#[verifier::external_type_specification]
#[verifier::external_body]
pub struct ExCocoonError(cocoon::Error);

/// Bytes that an envelope adds to the sealed payload: nonce, length and tag.
pub const ENVELOPE_OVERHEAD: usize = 36;

/// Payloads of this many bytes or more would run the cipher's 32-bit block
/// counter, which starts at block 1, past its end: they are neither sealed nor
/// opened.
pub const SEAL_LIMIT: u64 = 274877906817;

/// The payload length that a container's header declares: the big-endian
/// integer in bytes 12 to 20.
pub open spec fn declared_length(c: Seq<u8>) -> int {
    c[12] as int * 0x100000000000000 + c[13] as int * 0x1000000000000 + c[14] as int
        * 0x10000000000 + c[15] as int * 0x100000000 + c[16] as int * 0x1000000 + c[17] as int
        * 0x10000 + c[18] as int * 0x100 + c[19] as int
}

/// Whether `c` holds a whole header and tag, and at least the payload length
/// that its header declares, which is below the sealing limit.
pub open spec fn is_framed(c: Seq<u8>) -> bool {
    &&& c.len() >= ENVELOPE_OVERHEAD
    &&& declared_length(c) <= c.len() - ENVELOPE_OVERHEAD
    &&& declared_length(c) < SEAL_LIMIT
}

/// What opening a framed `container` under `key` gives: the payload, or
/// nothing when it fails its integrity check or was sealed under another key.
pub uninterp spec fn cocoon_open(key: Seq<u8>, container: Seq<u8>) -> Option<Seq<u8>>;

/// Relies on `MiniCocoon::from_key` and `MiniCocoon::wrap`: the container is
/// a 36-byte prefix, whose bytes 12 to 20 hold the payload length big-endian,
/// then the payload encrypted in place; `unwrap` under the same key gives the
/// payload back. Below the sealing limit the ChaCha20 keystream covers the
/// payload, and `wrap` succeeds; at or above it, it fails or panics.
#[verifier::external_body]
fn cocoon_seal(key: &[u8; 32], seed: &[u8; 32], data: &[u8]) -> (r: Result<Vec<u8>, cocoon::Error>)
    requires
        data@.len() < SEAL_LIMIT,
    ensures
        r is Ok,
        r is Ok ==> cocoon_open(key@, r->Ok_0@) == Some(data@),
        r is Ok ==> r->Ok_0@.len() == data@.len() + ENVELOPE_OVERHEAD,
        r is Ok ==> declared_length(r->Ok_0@) == data@.len(),
{
    MiniCocoon::from_key(key, seed).wrap(data)
}

/// Relies on `MiniCocoon::unwrap`, which decrypts with the key alone (the
/// seed only feeds nonces for sealing) and fails where the container does not
/// open. It adds the declared length to the prefix size unchecked, and runs
/// the keystream over that length, hence the frame requirement.
#[verifier::external_body]
fn cocoon_unseal(key: &[u8; 32], container: &[u8]) -> (r: Result<Vec<u8>, cocoon::Error>)
    requires
        is_framed(container@),
    ensures
        match r {
            Ok(v) => cocoon_open(key@, container@) == Some(v@),
            Err(_) => cocoon_open(key@, container@) is None,
        },
{
    MiniCocoon::from_key(key, &[0u8; 32]).unwrap(container)
}

/// Whether `container` is framed, read from its header.
pub fn check_frame(container: &[u8]) -> (r: bool)
    ensures
        r == is_framed(container@),
{
    if container.len() < ENVELOPE_OVERHEAD {
        return false;
    }
    let declared: u128 = container[12] as u128 * 0x100000000000000u128 + container[13] as u128
        * 0x1000000000000u128 + container[14] as u128 * 0x10000000000u128 + container[15] as u128
        * 0x100000000u128 + container[16] as u128 * 0x1000000u128 + container[17] as u128
        * 0x10000u128 + container[18] as u128 * 0x100u128 + container[19] as u128;
    declared <= (container.len() - ENVELOPE_OVERHEAD) as u128 && declared < SEAL_LIMIT as u128
}

/// Why the cipher could not do its work.
#[derive(Debug, PartialEq, Eq, Structural)]
pub enum CipherError {
    /// The cipher failed while sealing.
    Encryption,
    /// The container is malformed, corrupt or sealed under another key.
    Decryption,
}

/// Seals and opens payloads under one fixed key.
pub struct Envelope {
    key: [u8; 32],
}

impl Envelope {
    /// The key that this envelope seals under.
    pub closed spec fn key(&self) -> Seq<u8> {
        self.key@
    }

    /// What opening `container` gives under this envelope's key; a container
    /// that is not framed never opens.
    pub open spec fn opens(&self, container: Seq<u8>) -> Option<Seq<u8>> {
        if is_framed(container) {
            cocoon_open(self.key(), container)
        } else {
            None
        }
    }

    /// Whether `container` is a sealed envelope of `payload` under this key.
    pub open spec fn seals(&self, payload: Seq<u8>, container: Seq<u8>) -> bool {
        &&& self.opens(container) == Some(payload)
        &&& container.len() == payload.len() + ENVELOPE_OVERHEAD
    }

    pub fn new(key: [u8; 32]) -> (r: Self)
        ensures
            r.key() == key@,
    {
        Envelope { key }
    }

    /// Seals `plaintext`; `seed` draws the nonce, so it should be fresh and
    /// random for each call. A plaintext of `SEAL_LIMIT` bytes or more is
    /// refused.
    pub fn wrap(&self, plaintext: &[u8], seed: &[u8; 32]) -> (r: Result<Vec<u8>, CipherError>)
        ensures
            r is Ok <==> plaintext@.len() < SEAL_LIMIT,
            match r {
                Ok(c) => self.seals(plaintext@, c@),
                Err(e) => e == CipherError::Encryption,
            },
    {
        if plaintext.len() as u64 >= SEAL_LIMIT {
            return Err(CipherError::Encryption);
        }
        match cocoon_seal(&self.key, seed, plaintext) {
            Ok(c) => Ok(c),
            Err(_) => Err(CipherError::Encryption),
        }
    }

    /// Opens `container` and gives back its payload.
    pub fn unwrap(&self, container: &[u8]) -> (r: Result<Vec<u8>, CipherError>)
        ensures
            match r {
                Ok(p) => self.opens(container@) == Some(p@),
                Err(e) => self.opens(container@) is None && e == CipherError::Decryption,
            },
    {
        if !check_frame(container) {
            return Err(CipherError::Decryption);
        }
        match cocoon_unseal(&self.key, container) {
            Ok(p) => Ok(p),
            Err(_) => Err(CipherError::Decryption),
        }
    }
}

/// Opening a sealed envelope gives back the payload it was sealed from.
pub proof fn lemma_round_trip(env: Envelope, payload: Seq<u8>, container: Seq<u8>)
    requires
        env.seals(payload, container),
    ensures
        env.opens(container) == Some(payload),
{
}

/// A sealed envelope never equals its payload: it is always longer.
pub proof fn lemma_sealing_transforms(env: Envelope, payload: Seq<u8>, container: Seq<u8>)
    requires
        env.seals(payload, container),
    ensures
        container != payload,
{
    assert(container.len() != payload.len());
}

} // verus!
