//! Commitments and envelope authentication: SHA-256 digests of the
//! canonical state serialization, and HMAC-SHA256 tokens in their base64
//! transport form.

use crate::board::GameState;
use crate::codec::encode_game_state;
use crate::codec::state_bytes;
use base64::Engine as _;
use hmac::Mac as _;
use sha2::Digest as _;
use vstd::prelude::*;

verus! {

/// A 256-bit digest in its raw byte form.
#[derive(Debug, Clone, Copy, PartialEq, Eq, Hash)]
pub struct Digest {
    pub bytes: [u8; 32],
}

impl View for Digest {
    type V = Seq<u8>;

    open spec fn view(&self) -> Seq<u8> {
        self.bytes@
    }
}

impl Digest {
    /// Byte-for-byte comparison.
    pub fn equals(&self, other: &Digest) -> (r: bool)
        ensures
            r == (self@ == other@),
    {
        for i in 0..32usize
            invariant
                forall|j: int| 0 <= j < i ==> self.bytes@[j] == other.bytes@[j],
        {
            if self.bytes[i] != other.bytes[i] {
                proof {
                    assert(self@[i as int] != other@[i as int]);
                }
                return false;
            }
        }
        proof {
            assert(self@ =~= other@);
        }
        true
    }
}

/// What SHA-256 returns on the given bytes; fixed by the input alone.
pub uninterp spec fn sha256_of(bytes: Seq<u8>) -> Seq<u8>;

/// Relies on sha2's `Sha256`: a pure function of the input bytes with a
/// 32-byte result.
#[verifier::external_body]
fn sha256(bytes: &Vec<u8>) -> (r: Digest)
    ensures
        r@ == sha256_of(bytes@),
{
    let out = sha2::Sha256::digest(bytes.as_slice());
    let mut arr = [0u8; 32];
    arr.copy_from_slice(&out);
    Digest { bytes: arr }
}

impl GameState {
    /// The commitment digest: SHA-256 of the canonical serialization.
    /// Two structurally equal states commit equally; the preimage reads
    /// every field, the pepper included.
    pub fn commit(&self) -> (d: Digest)
        requires
            self.ships@.len() <= 0xffff_ffff,
        ensures
            d@ == sha256_of(state_bytes(*self)),
    {
        let bytes = encode_game_state(self);
        sha256(&bytes)
    }
}

/// Law: the commitment is deterministic and depends on every field. Two
/// states with the same preimage have the same digest and, by the
/// injectivity of the canonical serialization, the same ships, pepper
/// and grid; so any field difference changes the preimage.
pub proof fn lemma_commit_deterministic(s1: GameState, s2: GameState)
    requires
        state_bytes(s1) == state_bytes(s2),
    ensures
        sha256_of(state_bytes(s1)) == sha256_of(state_bytes(s2)),
        s1.ships@ == s2.ships@,
        s1.pepper@ == s2.pepper@,
        forall|x: int, y: int|
            0 <= x < 10 && 0 <= y < 10 ==> #[trigger] crate::board::cell_at(s1, x, y)
                == crate::board::cell_at(s2, x, y),
{
    crate::codec::lemma_state_bytes_injective(s1, s2);
}

/// What HMAC-SHA256 returns for the given key and message; fixed by the
/// two inputs alone.
pub uninterp spec fn hmac_sha256_of(key: Seq<u8>, msg: Seq<u8>) -> Seq<u8>;

/// Relies on hmac's `Hmac<Sha256>`: a pure function of key and message
/// with a 32-byte tag; a key of any length is accepted.
#[verifier::external_body]
fn hmac_sha256(key: &Vec<u8>, msg: &Vec<u8>) -> (r: Vec<u8>)
    ensures
        r@ == hmac_sha256_of(key@, msg@),
        r@.len() == 32,
{
    let mut mac = hmac::Hmac::<sha2::Sha256>::new_from_slice(key.as_slice()).expect(
        "HMAC accepts keys of any length",
    );
    mac.update(msg.as_slice());
    mac.finalize().into_bytes().to_vec()
}

/// What the standard base64 alphabet encodes the given bytes to; fixed
/// by the bytes alone.
pub uninterp spec fn base64_of(bytes: Seq<u8>) -> Seq<char>;

/// Relies on base64's `STANDARD` engine: the encoding is a pure function
/// of the input bytes.
#[verifier::external_body]
fn base64_encode(bytes: &Vec<u8>) -> (r: String)
    ensures
        r@ == base64_of(bytes@),
{
    base64::engine::general_purpose::STANDARD.encode(bytes.as_slice())
}

/// The authentication token for a message body under a match secret:
/// base64 of the body's HMAC-SHA256 tag.
pub open spec fn token_of(secret: Seq<u8>, body: Seq<u8>) -> Seq<char> {
    base64_of(hmac_sha256_of(secret, body))
}

/// Does a received token authenticate the body under the secret?
pub open spec fn token_accepted(secret: Seq<u8>, body: Seq<u8>, token: Option<Seq<char>>) -> bool {
    match token {
        Some(t) => t == token_of(secret, body),
        None => false,
    }
}

/// Compute the authentication token for an outgoing message body.
pub fn make_auth_token(secret: &Vec<u8>, body: &Vec<u8>) -> (r: String)
    ensures
        r@ == token_of(secret@, body@),
{
    let tag = hmac_sha256(secret, body);
    base64_encode(&tag)
}

/// Recompute the token for a received body and compare it with the
/// attached one.
pub fn check_auth_token(secret: &Vec<u8>, body: &Vec<u8>, token: &Option<String>) -> (r: bool)
    ensures
        r == token_accepted(
            secret@,
            body@,
            match token {
                Some(t) => Some(t@),
                None => None,
            },
        ),
{
    match token {
        None => false,
        Some(t) => {
            let expected = make_auth_token(secret, body);
            t.eq(&expected)
        },
    }
}

/// Law: an envelope whose token differs anywhere from the one computed
/// for its body under the match secret — one flipped bit included — is
/// rejected, as is an envelope with no token at all.
pub proof fn lemma_tampered_token_rejected(secret: Seq<u8>, body: Seq<u8>, t: Seq<char>)
    requires
        t != token_of(secret, body),
    ensures
        !token_accepted(secret, body, Some(t)),
        !token_accepted(secret, body, None),
{
}

/// The per-match secret: SHA-256 of the raw key-agreement output, as 32
/// plain bytes.
pub fn derive_match_secret(shared: &Vec<u8>) -> (r: Vec<u8>)
    ensures
        r@ == sha256_of(shared@),
        r@.len() == 32,
{
    let d = sha256(shared);
    let mut out: Vec<u8> = Vec::new();
    for i in 0..32usize
        invariant
            out@ =~= d@.subrange(0, i as int),
    {
        out.push(d.bytes[i]);
    }
    proof {
        assert(out@ =~= d@);
    }
    out
}

} // verus!
