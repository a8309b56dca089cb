//! The authenticated session layer: the per-match secret derived from an
//! ephemeral X25519 agreement, the message envelope with its HMAC token,
//! and the mutually-sequenced send and receive discipline.

use crate::board::HitType;
use crate::board::Position;
use crate::crypto::Digest;
use crate::crypto::check_auth_token;
use crate::crypto::make_auth_token;
use crate::crypto::sha256_of;
use crate::crypto::derive_match_secret;
use crate::crypto::token_accepted;
use crate::crypto::token_of;
use crate::journal::RoundCommit;
use vstd::prelude::*;

verus! {

#[verifier::external_type_specification]
#[verifier::external_body]
pub struct ExEphemeralPrivateKey(ring::agreement::EphemeralPrivateKey);

/// Why an incoming envelope or the session itself was rejected.
#[derive(Debug, Clone, Copy, PartialEq, Eq, Structural)]
pub enum SessionError {
    /// The envelope's HMAC token is missing or wrong.
    AuthFailure,
    /// The envelope's match id or sequence number is not the expected one.
    SequenceError,
    /// A message kind that the current protocol state does not allow.
    ProtocolViolation,
    /// The transport below failed; the session cannot continue.
    TransportError,
}

/// Transport form of a proof: the prover's opaque receipt bytes, and the
/// last round commit of its journal duplicated for quick inspection.
#[derive(Debug, Clone, PartialEq, Eq)]
pub struct ProofData {
    pub receipt_bytes: Vec<u8>,
    pub commit: RoundCommit,
}

impl ProofData {
    pub fn from_bytes(receipt_bytes: Vec<u8>, commit: RoundCommit) -> (r: Self)
        ensures
            r.receipt_bytes@ == receipt_bytes@,
            r.commit == commit,
    {
        Self { receipt_bytes, commit }
    }
}

/// The transport bytes of a proof: the receipt's length as a
/// little-endian `u64`, the receipt bytes, then the 74 bytes of the
/// inspection commit.
pub open spec fn proof_data_bytes(pd: ProofData) -> Seq<u8> {
    crate::codec::u64_le(pd.receipt_bytes@.len() as u64) + pd.receipt_bytes@
        + crate::journal::round_commit_bytes(pd.commit)
}

/// A byte string is a well-formed proof encoding when its length matches
/// the receipt length it announces and the trailing record's tags are in
/// range.
pub open spec fn wf_proof_data_bytes(b: Seq<u8>) -> bool {
    &&& b.len() >= 82
    &&& ({
        let n = crate::codec::u64_of_halves(
            crate::codec::u32_of4(b[0], b[1], b[2], b[3]),
            crate::codec::u32_of4(b[4], b[5], b[6], b[7]),
        );
        &&& b.len() == 82 + n
        &&& crate::journal::wf_commit_at(b, 8 + n)
    })
}

/// Serialize a proof for transport.
pub fn encode_proof_data(pd: &ProofData) -> (out: Vec<u8>)
    ensures
        out@ == proof_data_bytes(*pd),
{
    let mut out: Vec<u8> = Vec::new();
    let n = pd.receipt_bytes.len();
    crate::codec::push_u64_le(&mut out, n as u64);
    for i in 0..n
        invariant
            n == pd.receipt_bytes@.len(),
            out@ =~= crate::codec::u64_le(n as u64) + pd.receipt_bytes@.subrange(0, i as int),
    {
        out.push(pd.receipt_bytes[i]);
    }
    proof {
        assert(pd.receipt_bytes@.subrange(0, n as int) =~= pd.receipt_bytes@);
    }
    crate::journal::push_round_commit(&mut out, &pd.commit);
    proof {
        assert(out@ =~= proof_data_bytes(*pd));
    }
    out
}

/// Decode a proof from its transport bytes. Succeeds exactly on
/// well-formed encodings, and then returns the proof those bytes encode.
pub fn decode_proof_data(b: &Vec<u8>) -> (r: Option<ProofData>)
    ensures
        (r is Some) <==> wf_proof_data_bytes(b@),
        r matches Some(pd) ==> proof_data_bytes(pd) == b@,
{
    let len = b.len();
    if len < 82 {
        return None;
    }
    let n64 = crate::codec::read_u64_le(b, 0);
    if n64 > (usize::MAX - 82) as u64 {
        proof {
            if wf_proof_data_bytes(b@) {
                assert(false);
            }
        }
        return None;
    }
    let n = n64 as usize;
    if len - 82 != n {
        return None;
    }
    let mut receipt_bytes: Vec<u8> = Vec::new();
    for i in 0..n
        invariant
            len == b@.len(),
            len == 82 + n,
            receipt_bytes@ =~= b@.subrange(8, 8 + i as int),
    {
        receipt_bytes.push(b[8 + i]);
        proof {
            assert(receipt_bytes@ =~= b@.subrange(8, 8 + i + 1));
        }
    }
    let commit = match crate::journal::read_round_commit(b, 8 + n) {
        Some(rc) => rc,
        None => {
            return None;
        },
    };
    let pd = ProofData { receipt_bytes, commit };
    proof {
        crate::codec::lemma_u32_of4_le(b@[0], b@[1], b@[2], b@[3]);
        crate::codec::lemma_u32_of4_le(b@[4], b@[5], b@[6], b@[7]);
        assert(proof_data_bytes(pd) =~= b@);
    }
    Some(pd)
}

/// Law: the proof transport codec loses nothing. Two proofs with the
/// same bytes have the same receipt bytes and the same commit — the
/// shot in particular is preserved — so a proof survives the round trip
/// to bytes and back unchanged.
#[verifier::rlimit(100)]
pub proof fn lemma_proof_data_bytes_injective(a: ProofData, b: ProofData)
    requires
        proof_data_bytes(a) == proof_data_bytes(b),
    ensures
        a.receipt_bytes@ == b.receipt_bytes@,
        a.commit.old_state@ == b.commit.old_state@,
        a.commit.new_state@ == b.commit.new_state@,
        a.commit.shot == b.commit.shot,
        a.commit.hit == b.commit.hit,
{
    let ba = proof_data_bytes(a);
    let bb = proof_data_bytes(b);
    let na = a.receipt_bytes@.len() as int;
    let nb = b.receipt_bytes@.len() as int;
    assert(ba.len() == 8 + na + 74);
    assert(bb.len() == 8 + nb + 74);
    assert(na == nb);
    assert forall|k: int| 0 <= k < na implies a.receipt_bytes@[k] == b.receipt_bytes@[k] by {
        assert(ba[8 + k] == a.receipt_bytes@[k] && bb[8 + k] == b.receipt_bytes@[k]);
    }
    assert(a.receipt_bytes@ =~= b.receipt_bytes@);
    assert forall|k: int| 0 <= k < 74 implies crate::journal::round_commit_bytes(a.commit)[k]
        == crate::journal::round_commit_bytes(b.commit)[k] by {
        assert(ba[8 + na + k] == crate::journal::round_commit_bytes(a.commit)[k]);
        assert(bb[8 + na + k] == crate::journal::round_commit_bytes(b.commit)[k]);
    }
    assert(crate::journal::round_commit_bytes(a.commit) =~= crate::journal::round_commit_bytes(
        b.commit,
    ));
    crate::journal::lemma_round_commit_bytes_injective(a.commit, b.commit);
}

/// Law: every transport encoding of a proof is well formed, so decoding
/// what was encoded succeeds; with the codec's injectivity this is the
/// bytes round trip.
pub proof fn lemma_proof_data_bytes_wf(pd: ProofData)
    requires
        pd.receipt_bytes@.len() <= 0xffff_ffff_ffff_ffff,
    ensures
        wf_proof_data_bytes(proof_data_bytes(pd)),
{
    let bs = proof_data_bytes(pd);
    let n = pd.receipt_bytes@.len() as int;
    crate::codec::lemma_u64_le_value(pd.receipt_bytes@.len() as u64);
    assert(bs.len() == 82 + n);
    let rb = crate::journal::round_commit_bytes(pd.commit);
    assert(rb[72] == crate::journal::hit_bytes(pd.commit.hit)[0]);
    assert(rb[73] == crate::journal::hit_bytes(pd.commit.hit)[1]);
    assert forall|k: int| 0 <= k < 74 implies bs[8 + n + k] == rb[k] by {}
    assert(crate::journal::wf_commit_at(bs, 8 + n));
}

/// One protocol message.
#[derive(Debug, Clone, PartialEq, Eq)]
pub enum GameMessage {
    /// Handshake: the sender's board commitment and name.
    BoardReady { commitment: Digest, player_name: String, proof: Option<ProofData> },
    /// Request to take a shot at `position`.
    TakeShot { position: Position },
    /// The defender's verified answer to a shot.
    ShotResult { position: Position, hit_type: HitType, proof: ProofData },
    /// The game has ended.
    GameOver { winner: String },
    /// An error the session survives.
    Error { message: String },
}

/// The on-wire framing of every message: the match it belongs to, the
/// sender's sequence number, the payload, and the HMAC token.
#[derive(Debug, Clone, PartialEq, Eq)]
pub struct Envelope {
    pub match_id: u128,
    pub seq: u64,
    pub payload: GameMessage,
    pub auth_token: Option<String>,
}

impl Envelope {
    pub fn new(match_id: u128, seq: u64, payload: GameMessage) -> (r: Self)
        ensures
            r.match_id == match_id,
            r.seq == seq,
            r.payload == payload,
            r.auth_token is None,
    {
        Self { match_id, seq, payload, auth_token: None }
    }
}

/// One peer's view of the session transport: the adopted match id, the
/// two monotonic sequence counters, and the per-match secret.
pub struct Session {
    pub match_id: Option<u128>,
    pub next_seq: u64,
    pub expected_seq: u64,
    pub match_secret: Option<Vec<u8>>,
}

impl Session {
    /// A fresh session: both counters at zero, no match id adopted yet.
    pub fn new(match_secret: Option<Vec<u8>>) -> (s: Self)
        ensures
            s.match_id is None,
            s.next_seq == 0,
            s.expected_seq == 0,
            s.match_secret == match_secret,
    {
        Self { match_id: None, next_seq: 0, expected_seq: 0, match_secret }
    }

    /// Adopt a match id; the host does so when it generates one, the
    /// client when it sees the host's first envelope.
    pub fn set_match_id(&mut self, id: u128)
        ensures
            *final(self) == (Session { match_id: Some(id), ..*old(self) }),
    {
        self.match_id = Some(id);
    }

    /// Build the next outgoing envelope: it carries the adopted match id
    /// and the current send counter, which then advances.
    pub fn next_envelope(&mut self, payload: GameMessage) -> (env: Envelope)
        requires
            old(self).match_id is Some,
        ensures
            env.match_id == old(self).match_id.unwrap(),
            env.seq == old(self).next_seq,
            env.payload == payload,
            env.auth_token is None,
            final(self).next_seq == (old(self).next_seq + 1) % 0x1_0000_0000_0000_0000,
            final(self).match_id == old(self).match_id,
            final(self).expected_seq == old(self).expected_seq,
            final(self).match_secret == old(self).match_secret,
    {
        let id = match self.match_id {
            Some(id) => id,
            None => 0,  // unreachable under the precondition
        };
        let env = Envelope::new(id, self.next_seq, payload);
        self.next_seq = self.next_seq.wrapping_add(1);
        env
    }

    /// The token for an outgoing envelope, computed over its
    /// serialization with the token field cleared; `None` when the
    /// session runs without a match secret.
    pub fn auth_token_for(&self, body: &Vec<u8>) -> (r: Option<String>)
        ensures
            match self.match_secret {
                Some(secret) => r matches Some(t) && t@ == token_of(secret@, body@),
                None => r is None,
            },
    {
        match &self.match_secret {
            Some(secret) => Some(make_auth_token(secret, body)),
            None => None,
        }
    }

    /// The receive discipline for one incoming envelope, whose
    /// serialization with the token cleared is `body`: verify the token,
    /// adopt the match id if none is held yet, then require the adopted
    /// match id and the expected sequence number, which then advances.
    /// A failed check rejects the envelope; a sequence failure still
    /// keeps an adopted match id, as the wire already bound the session.
    pub fn accept_envelope(&mut self, env: &Envelope, body: &Vec<u8>) -> (r: Result<
        (),
        SessionError,
    >)
        ensures
            ({
                let authed = match old(self).match_secret {
                    Some(secret) => token_accepted(
                        secret@,
                        body@,
                        match env.auth_token {
                            Some(t) => Some(t@),
                            None => None,
                        },
                    ),
                    None => true,
                };
                let adopted = match old(self).match_id {
                    Some(id) => id,
                    None => env.match_id,
                };
                &&& ((r == Err::<(), SessionError>(SessionError::AuthFailure)) <==> !authed)
                &&& ((r == Err::<(), SessionError>(SessionError::SequenceError)) <==> (authed && (
                env.match_id != adopted || env.seq != old(self).expected_seq)))
                &&& ((r is Ok) <==> (authed && env.match_id == adopted && env.seq == old(
                    self,
                ).expected_seq))
                &&& final(self).next_seq == old(self).next_seq
                &&& final(self).match_secret == old(self).match_secret
                &&& (!authed ==> *final(self) == *old(self))
                &&& (authed ==> final(self).match_id == Some(adopted))
                &&& final(self).expected_seq == (if r is Ok {
                    (old(self).expected_seq + 1) % 0x1_0000_0000_0000_0000
                } else {
                    old(self).expected_seq as int
                })
            }),
    {
        let authed = match &self.match_secret {
            Some(secret) => check_auth_token(secret, body, &env.auth_token),
            None => true,
        };
        if !authed {
            return Err(SessionError::AuthFailure);
        }
        let adopted = match self.match_id {
            Some(id) => id,
            None => {
                self.match_id = Some(env.match_id);
                env.match_id
            },
        };
        if env.match_id != adopted {
            return Err(SessionError::SequenceError);
        }
        if env.seq != self.expected_seq {
            return Err(SessionError::SequenceError);
        }
        self.expected_seq = self.expected_seq.wrapping_add(1);
        Ok(())
    }
}

/// A run of sequence numbers counting up one by one from `start`.
pub open spec fn contiguous_from(start: int, seqs: Seq<int>) -> bool
    decreases seqs.len(),
{
    seqs.len() == 0 || (seqs[0] == start && contiguous_from(start + 1, seqs.drop_first()))
}

/// Law: the sequence numbers one peer accepts form `0, 1, 2, …` with no
/// gaps or repeats. Each accepted envelope carries exactly the expected
/// counter, which then advances by one, so the numbers a fresh session
/// accepts count up from zero: the `i`-th accepted envelope has `seq`
/// `i`.
pub proof fn lemma_seq_numbers_contiguous(start: int, seqs: Seq<int>)
    requires
        contiguous_from(start, seqs),
    ensures
        forall|i: int| 0 <= i < seqs.len() ==> seqs[i] == start + i,
    decreases seqs.len(),
{
    if seqs.len() > 0 {
        lemma_seq_numbers_contiguous(start + 1, seqs.drop_first());
        assert forall|i: int| 0 <= i < seqs.len() implies seqs[i] == start + i by {
            if i > 0 {
                assert(seqs.drop_first()[i - 1] == seqs[i]);
            }
        }
    }
}

/// Relies on ring's X25519 ephemeral key generation: the public value of
/// a fresh keypair is 32 bytes; nothing else can be promised of a random
/// key.
#[verifier::external_body]
fn x25519_generate() -> (r: Option<(ring::agreement::EphemeralPrivateKey, Vec<u8>)>)
    ensures
        r matches Some(p) ==> p.1@.len() == 32,
{
    let rng = ring::rand::SystemRandom::new();
    let private_key = match ring::agreement::EphemeralPrivateKey::generate(
        &ring::agreement::X25519,
        &rng,
    ) {
        Ok(k) => k,
        Err(_) => return None,
    };
    let public_key = match private_key.compute_public_key() {
        Ok(p) => p,
        Err(_) => return None,
    };
    Some((private_key, public_key.as_ref().to_vec()))
}

/// Relies on ring's `agree_ephemeral` for X25519: on success the raw
/// shared secret is 32 bytes; its value depends on the random private
/// key.
#[verifier::external_body]
fn x25519_agree(
    my_private: ring::agreement::EphemeralPrivateKey,
    peer_public: &Vec<u8>,
) -> (r: Option<Vec<u8>>)
    ensures
        r matches Some(s) ==> s@.len() == 32,
{
    let peer = ring::agreement::UnparsedPublicKey::new(
        &ring::agreement::X25519,
        peer_public.as_slice(),
    );
    ring::agreement::agree_ephemeral(my_private, &peer, |shared: &[u8]| shared.to_vec()).ok()
}

/// Generate one side's ephemeral keypair for the per-match agreement.
/// The public half is what goes to the peer, base64-encoded, inside the
/// encrypted channel.
pub fn dh_generate_keypair() -> (r: Option<(ring::agreement::EphemeralPrivateKey, Vec<u8>)>)
    ensures
        r matches Some(p) ==> p.1@.len() == 32,
{
    x25519_generate()
}

/// Derive the 32-byte per-match secret from our private key and the
/// peer's public value: SHA-256 of the raw agreement output.
pub fn dh_derive_secret(
    my_private: ring::agreement::EphemeralPrivateKey,
    peer_public: &Vec<u8>,
) -> (r: Option<Vec<u8>>)
    ensures
        r matches Some(s) ==> s@.len() == 32 && (exists|raw: Seq<u8>|
            raw.len() == 32 && s@ == #[trigger] sha256_of(raw)),
{
    match x25519_agree(my_private, peer_public) {
        Some(shared) => {
            let secret = derive_match_secret(&shared);
            proof {
                assert(shared@.len() == 32 && secret@ == sha256_of(shared@));
            }
            Some(secret)
        },
        None => None,
    }
}

} // verus!
