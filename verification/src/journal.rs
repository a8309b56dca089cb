//! The proof journal: the public output of one proving run. Its layout
//! is the initial state digest followed by one fixed-width `RoundCommit`
//! per shot, each independently decodable.

use crate::board::GameState;
use crate::board::HitType;
use crate::board::Position;
use crate::board::spec_shot_outcome;
use crate::board::spec_shot_rejected;
use crate::board::spec_well_formed;
use crate::board::shot_transition;
use crate::board::first_cover;
use crate::board::cell_at;
use crate::codec::type_tag;
use crate::codec::u32_le;
use crate::codec::u32_of4;
use crate::codec::lemma_u32_le_value;
use crate::codec::lemma_u32_of4_le;
use crate::codec::push_u32_le;
use crate::codec::read_u32_le;
use crate::crypto::Digest;
use crate::crypto::sha256_of;
use crate::codec::state_bytes;
use vstd::arithmetic::div_mod::*;
use vstd::prelude::*;

verus! {

/// The public record of one shot's state transition: the digests before
/// and after, the shot, and its classification.
#[derive(Debug, Clone, Copy, PartialEq, Eq)]
pub struct RoundCommit {
    pub old_state: Digest,
    pub new_state: Digest,
    pub shot: Position,
    pub hit: HitType,
}

/// Why a proof journal or its binding checks were rejected.
#[derive(Debug, Clone, Copy, PartialEq, Eq, Structural)]
pub enum ProofError {
    /// The prover could not run at all.
    ProverUnavailable,
    /// The receipt failed cryptographic verification.
    ProofInvalid,
    /// The journal bytes are not a well-formed sequence of records.
    MalformedJournal,
    /// The journal carries no round commit.
    EmptyJournal,
    /// No commit in the journal speaks of the expected shot.
    ShotMismatch,
    /// The commit's old-state digest is not the one on record.
    OldStateMismatch,
    /// The authoritative board rejects the claimed shot.
    InvalidShot,
    /// Re-applying the shot does not reproduce the new-state digest.
    NewStateMismatch,
}

/// The two tag bytes of a hit classification.
pub open spec fn hit_bytes(h: HitType) -> Seq<u8> {
    match h {
        HitType::Miss => seq![0u8, 0u8],
        HitType::Hit => seq![1u8, 0u8],
        HitType::Sunk(t) => seq![2u8, type_tag(t)],
    }
}

/// The 74 bytes of one round commit: both digests, the shot coordinates
/// as little-endian `u32`s, and the hit classification.
pub open spec fn round_commit_bytes(rc: RoundCommit) -> Seq<u8> {
    rc.old_state@ + rc.new_state@ + u32_le(rc.shot.x) + u32_le(rc.shot.y) + hit_bytes(rc.hit)
}

/// The round commits of a journal, in order.
pub open spec fn commits_bytes(cs: Seq<RoundCommit>) -> Seq<u8>
    decreases cs.len(),
{
    if cs.len() == 0 {
        Seq::empty()
    } else {
        commits_bytes(cs.drop_last()) + round_commit_bytes(cs.last())
    }
}

/// A whole journal: the initial digest, then the commits.
pub open spec fn journal_bytes(initial: Seq<u8>, cs: Seq<RoundCommit>) -> Seq<u8> {
    initial + commits_bytes(cs)
}

/// A journal encoding is 74 bytes per commit after the initial digest.
pub proof fn lemma_commits_bytes_len(cs: Seq<RoundCommit>)
    ensures
        commits_bytes(cs).len() == 74 * cs.len(),
    decreases cs.len(),
{
    if cs.len() > 0 {
        lemma_commits_bytes_len(cs.drop_last());
    }
}

/// Byte `j` of commit `i` sits at offset `74 * i + j` of the commits.
pub proof fn lemma_commits_bytes_index(cs: Seq<RoundCommit>, i: int, j: int)
    requires
        0 <= i < cs.len(),
        0 <= j < 74,
    ensures
        commits_bytes(cs)[74 * i + j] == round_commit_bytes(cs[i])[j],
    decreases cs.len(),
{
    lemma_commits_bytes_len(cs.drop_last());
    if i < cs.len() - 1 {
        lemma_commits_bytes_index(cs.drop_last(), i, j);
    }
}

/// Appending one commit appends its 74 bytes.
pub proof fn lemma_commits_bytes_push(cs: Seq<RoundCommit>, rc: RoundCommit)
    ensures
        commits_bytes(cs.push(rc)) == commits_bytes(cs) + round_commit_bytes(rc),
{
    assert(cs.push(rc).drop_last() =~= cs);
    assert(cs.push(rc).last() == rc);
}

/// Law: every encoded journal is well formed and carries its commits
/// back byte for byte, so extracting what was encoded yields the same
/// records: the journal round trip.
pub proof fn lemma_journal_bytes_wf(initial: Seq<u8>, cs: Seq<RoundCommit>)
    requires
        initial.len() == 32,
    ensures
        wf_journal_bytes(journal_bytes(initial, cs)),
        journal_count(journal_bytes(initial, cs)) == cs.len(),
        forall|i: int|
            0 <= i < cs.len() ==> journal_bytes(initial, cs).subrange(32 + 74 * i, 106 + 74 * i)
                == round_commit_bytes(#[trigger] cs[i]),
{
    let b = journal_bytes(initial, cs);
    let n = cs.len() as int;
    lemma_commits_bytes_len(cs);
    assert(b.len() == 32 + 74 * n);
    lemma_mod_multiples_basic(n, 74);
    lemma_div_multiples_vanish(n, 74);
    assert(journal_count(b) == n);
    assert forall|i: int| 0 <= i < n implies b.subrange(32 + 74 * i, 106 + 74 * i)
        == round_commit_bytes(#[trigger] cs[i]) by {
        assert(cs[i].old_state@.len() == 32 && cs[i].new_state@.len() == 32);
        assert forall|j: int| 0 <= j < 74 implies b[32 + 74 * i + j] == round_commit_bytes(
            cs[i],
        )[j] by {
            lemma_commits_bytes_index(cs, i, j);
            assert(b[32 + (74 * i + j)] == commits_bytes(cs)[74 * i + j]);
        }
        assert(b.subrange(32 + 74 * i, 106 + 74 * i) =~= round_commit_bytes(cs[i]));
    }
    assert forall|i: int| 0 <= i < n implies #[trigger] wf_commit_at(b, 32 + 74 * i) by {
        let rb = round_commit_bytes(cs[i]);
        assert(b.subrange(32 + 74 * i, 106 + 74 * i) == rb);
        assert(b[32 + 74 * i + 72] == rb[72] && b[32 + 74 * i + 73] == rb[73]);
        assert(rb[72] == hit_bytes(cs[i].hit)[0] && rb[73] == hit_bytes(cs[i].hit)[1]);
    }
}

/// Law: equal 74-byte encodings come from equal round commits — the
/// journal codec loses nothing.
pub proof fn lemma_round_commit_bytes_injective(a: RoundCommit, b: RoundCommit)
    requires
        round_commit_bytes(a) == round_commit_bytes(b),
    ensures
        a.old_state@ == b.old_state@,
        a.new_state@ == b.new_state@,
        a.shot == b.shot,
        a.hit == b.hit,
{
    let ba = round_commit_bytes(a);
    let bb = round_commit_bytes(b);
    assert(a.old_state@.len() == 32 && a.new_state@.len() == 32);
    assert(b.old_state@.len() == 32 && b.new_state@.len() == 32);
    assert forall|k: int| 0 <= k < 32 implies a.old_state@[k] == b.old_state@[k] by {
        assert(ba[k] == a.old_state@[k] && bb[k] == b.old_state@[k]);
    }
    assert(a.old_state@ =~= b.old_state@);
    assert forall|k: int| 0 <= k < 32 implies a.new_state@[k] == b.new_state@[k] by {
        assert(ba[32 + k] == a.new_state@[k] && bb[32 + k] == b.new_state@[k]);
    }
    assert(a.new_state@ =~= b.new_state@);
    assert forall|k: int| 0 <= k < 4 implies u32_le(a.shot.x)[k] == u32_le(b.shot.x)[k]
        && u32_le(a.shot.y)[k] == u32_le(b.shot.y)[k] by {
        assert(ba[64 + k] == u32_le(a.shot.x)[k] && bb[64 + k] == u32_le(b.shot.x)[k]);
        assert(ba[68 + k] == u32_le(a.shot.y)[k] && bb[68 + k] == u32_le(b.shot.y)[k]);
    }
    assert(u32_le(a.shot.x) =~= u32_le(b.shot.x));
    assert(u32_le(a.shot.y) =~= u32_le(b.shot.y));
    lemma_u32_le_value(a.shot.x);
    lemma_u32_le_value(b.shot.x);
    lemma_u32_le_value(a.shot.y);
    lemma_u32_le_value(b.shot.y);
    assert(a.shot == b.shot);
    assert(ba[72] == hit_bytes(a.hit)[0] && ba[73] == hit_bytes(a.hit)[1]);
    assert(bb[72] == hit_bytes(b.hit)[0] && bb[73] == hit_bytes(b.hit)[1]);
    match (a.hit, b.hit) {
        (HitType::Sunk(ta), HitType::Sunk(tb)) => {
            assert(type_tag(ta) == type_tag(tb));
            assert(ta == tb);
        },
        _ => {},
    }
}

/// Append the 74 bytes of one round commit.
pub fn push_round_commit(out: &mut Vec<u8>, rc: &RoundCommit)
    ensures
        final(out)@ == old(out)@ + round_commit_bytes(*rc),
{
    push_digest(out, &rc.old_state);
    push_digest(out, &rc.new_state);
    push_u32_le(out, rc.shot.x);
    push_u32_le(out, rc.shot.y);
    match rc.hit {
        HitType::Miss => {
            out.push(0);
            out.push(0);
        },
        HitType::Hit => {
            out.push(1);
            out.push(0);
        },
        HitType::Sunk(t) => {
            out.push(2);
            out.push(t.index() as u8);
        },
    }
    proof {
        assert(out@ =~= old(out)@ + round_commit_bytes(*rc));
    }
}

/// Append the 32 bytes of a digest.
pub fn push_digest(out: &mut Vec<u8>, d: &Digest)
    ensures
        final(out)@ == old(out)@ + d@,
{
    for i in 0..32usize
        invariant
            out@ =~= old(out)@ + d@.subrange(0, i as int),
    {
        out.push(d.bytes[i]);
    }
    proof {
        assert(out@ =~= old(out)@ + d@);
    }
}

/// Read the 32-byte digest at offset `off`.
pub fn read_digest(b: &Vec<u8>, off: usize) -> (d: Digest)
    requires
        off + 32 <= b@.len(),
    ensures
        d@ == b@.subrange(off as int, off + 32),
{
    let len = b.len();
    let mut arr = [0u8;32];
    for i in 0..32usize
        invariant
            off + 32 <= b@.len(),
            len == b@.len(),
            arr@.len() == 32,
            forall|j: int| 0 <= j < i ==> arr@[j] == b@[off + j],
    {
        arr[i] = b[off + i];
    }
    let d = Digest { bytes: arr };
    proof {
        assert(d@ =~= b@.subrange(off as int, off + 32));
    }
    d
}

/// Are the two hit-classification bytes of the record at `off` in range
/// and canonical?
pub open spec fn wf_commit_at(b: Seq<u8>, off: int) -> bool {
    &&& (b[off + 72] == 0 || b[off + 72] == 1 || b[off + 72] == 2)
    &&& (b[off + 72] == 2 ==> b[off + 73] < 5)
    &&& (b[off + 72] != 2 ==> b[off + 73] == 0)
}

/// A byte string is a well-formed journal when an initial digest fits,
/// what follows is whole 74-byte records, and each record's tags are in
/// range.
pub open spec fn wf_journal_bytes(b: Seq<u8>) -> bool {
    &&& b.len() >= 32
    &&& (b.len() - 32) % 74 == 0
    &&& forall|i: int| 0 <= i < (b.len() - 32) / 74 ==> #[trigger] wf_commit_at(b, 32 + 74 * i)
}

/// The number of round commits a well-formed journal holds.
pub open spec fn journal_count(b: Seq<u8>) -> int {
    (b.len() - 32) / 74
}

/// The old-state digest of the record at `off`.
pub open spec fn commit_old_at(b: Seq<u8>, off: int) -> Seq<u8> {
    b.subrange(off, off + 32)
}

/// The new-state digest of the record at `off`.
pub open spec fn commit_new_at(b: Seq<u8>, off: int) -> Seq<u8> {
    b.subrange(off + 32, off + 64)
}

/// The shot of the record at `off`.
pub open spec fn commit_shot_at(b: Seq<u8>, off: int) -> Position {
    Position {
        x: u32_of4(b[off + 64], b[off + 65], b[off + 66], b[off + 67]) as u32,
        y: u32_of4(b[off + 68], b[off + 69], b[off + 70], b[off + 71]) as u32,
    }
}

/// A record's encoding determines its fields.
pub proof fn lemma_commit_fields_at(rc: RoundCommit, b: Seq<u8>, off: int)
    requires
        0 <= off,
        off + 74 <= b.len(),
        round_commit_bytes(rc) == b.subrange(off, off + 74),
    ensures
        rc.old_state@ == commit_old_at(b, off),
        rc.new_state@ == commit_new_at(b, off),
        rc.shot == commit_shot_at(b, off),
{
    let sub = b.subrange(off, off + 74);
    assert(rc.old_state@.len() == 32 && rc.new_state@.len() == 32);
    assert forall|k: int| 0 <= k < 32 implies rc.old_state@[k] == b[off + k] by {
        assert(sub[k] == rc.old_state@[k]);
    }
    assert(rc.old_state@ =~= commit_old_at(b, off));
    assert forall|k: int| 0 <= k < 32 implies rc.new_state@[k] == b[off + 32 + k] by {
        assert(sub[32 + k] == rc.new_state@[k]);
    }
    assert(rc.new_state@ =~= commit_new_at(b, off));
    assert forall|k: int| 0 <= k < 4 implies u32_le(rc.shot.x)[k] == b[off + 64 + k] && u32_le(
        rc.shot.y,
    )[k] == b[off + 68 + k] by {
        assert(sub[64 + k] == u32_le(rc.shot.x)[k]);
        assert(sub[68 + k] == u32_le(rc.shot.y)[k]);
    }
    lemma_u32_le_value(rc.shot.x);
    lemma_u32_le_value(rc.shot.y);
}

/// Read the 74-byte round commit at offset `off`. Succeeds exactly when
/// the record's tag bytes are in range, and then returns the record
/// those bytes encode.
pub fn read_round_commit(b: &Vec<u8>, off: usize) -> (r: Option<RoundCommit>)
    requires
        off + 74 <= b@.len(),
    ensures
        (r is Some) <==> wf_commit_at(b@, off as int),
        r matches Some(rc) ==> round_commit_bytes(rc) == b@.subrange(off as int, off + 74),
{
    let len = b.len();
    let old_state = read_digest(b, off);
    let new_state = read_digest(b, off + 32);
    let x = read_u32_le(b, off + 64);
    let y = read_u32_le(b, off + 68);
    let tag = b[off + 72];
    let sb = b[off + 73];
    let hit = if tag == 0 && sb == 0 {
        HitType::Miss
    } else if tag == 1 && sb == 0 {
        HitType::Hit
    } else if tag == 2 {
        match crate::codec::type_of_tag(sb) {
            Some(t) => HitType::Sunk(t),
            None => {
                return None;
            },
        }
    } else {
        return None;
    };
    let rc = RoundCommit { old_state, new_state, shot: Position { x, y }, hit };
    proof {
        let offi = off as int;
        lemma_u32_of4_le(b@[offi + 64], b@[offi + 65], b@[offi + 66], b@[offi + 67]);
        lemma_u32_of4_le(b@[offi + 68], b@[offi + 69], b@[offi + 70], b@[offi + 71]);
        assert(round_commit_bytes(rc) =~= b@.subrange(offi, offi + 74));
        assert(wf_commit_at(b@, offi));
    }
    Some(rc)
}

/// Parse the round commits out of a journal, skipping the initial
/// digest. Succeeds exactly on well-formed journals and then returns the
/// records those bytes encode, in order.
pub fn extract_round_commits(journal: &Vec<u8>) -> (r: Result<Vec<RoundCommit>, ProofError>)
    ensures
        (r is Ok) <==> wf_journal_bytes(journal@),
        r is Err ==> r == Err::<Vec<RoundCommit>, ProofError>(ProofError::MalformedJournal),
        r matches Ok(cs) ==> cs@.len() == journal_count(journal@) && forall|i: int|
            0 <= i < cs@.len() ==> round_commit_bytes(#[trigger] cs@[i]) == journal@.subrange(
                32 + 74 * i,
                106 + 74 * i,
            ),
{
    let len = journal.len();
    if len < 32 {
        return Err(ProofError::MalformedJournal);
    }
    if (len - 32) % 74 != 0 {
        return Err(ProofError::MalformedJournal);
    }
    let n = (len - 32) / 74;
    proof {
        lemma_fundamental_div_mod(len - 32, 74);
        assert(74 * (n as int) == len - 32);
    }
    let mut cs: Vec<RoundCommit> = Vec::new();
    for i in 0..n
        invariant
            len == journal@.len(),
            n == journal_count(journal@),
            74 * (n as int) == len - 32,
            cs@.len() == i,
            forall|ii: int|
                0 <= ii < i ==> round_commit_bytes(#[trigger] cs@[ii]) == journal@.subrange(
                    32 + 74 * ii,
                    106 + 74 * ii,
                ),
            forall|ii: int| 0 <= ii < i ==> #[trigger] wf_commit_at(journal@, 32 + 74 * ii),
    {
        let off = 32 + 74 * i;
        let rc = match read_round_commit(journal, off) {
            Some(rc) => rc,
            None => {
                return Err(ProofError::MalformedJournal);
            },
        };
        cs.push(rc);
    }
    proof {
        assert(wf_journal_bytes(journal@));
    }
    Ok(cs)
}

/// A fleet whose ships' kinds are pairwise distinct has at most five
/// ships: there are only five kinds.
pub proof fn lemma_fleet_len(ships: Seq<crate::board::Ship>)
    requires
        forall|i: int, j: int|
            0 <= i < j < ships.len() ==> (#[trigger] ships[i]).ship_type != (
            #[trigger] ships[j]).ship_type,
    ensures
        ships.len() <= 5,
{
    if ships.len() > 5 {
        let t0 = ships[0].ship_type;
        let t1 = ships[1].ship_type;
        let t2 = ships[2].ship_type;
        let t3 = ships[3].ship_type;
        let t4 = ships[4].ship_type;
        let t5 = ships[5].ship_type;
        assert(false);
    }
}

impl GameState {
    /// The defender's record of one shot against this board: the digests
    /// before and after, and the shot's classification. A rejected shot
    /// — off the board or already taken — leaves the board unchanged and
    /// is recorded as a `Miss` between equal digests.
    pub fn round_commit_for_shot(&mut self, shot: Position) -> (rc: RoundCommit)
        requires
            old(self).ships@.len() <= 0xffff_ffff,
        ensures
            rc.shot == shot,
            rc.old_state@ == sha256_of(state_bytes(*old(self))),
            rc.new_state@ == sha256_of(state_bytes(*final(self))),
            spec_shot_rejected(*old(self), shot) ==> *final(self) == *old(self) && rc.hit
                == HitType::Miss,
            !spec_shot_rejected(*old(self), shot) ==> rc.hit == spec_shot_outcome(
                *old(self),
                shot,
            ) && shot_transition(*old(self), *final(self), shot),
            final(self).ships@.len() == old(self).ships@.len(),
    {
        let old_state = self.commit();
        let hit = match self.apply_shot(shot) {
            Some(h) => h,
            None => HitType::Miss,
        };
        proof {
            crate::board::lemma_first_cover_bounds(
                old(self).ships@,
                shot.x as int,
                shot.y as int,
            );
        }
        let new_state = self.commit();
        RoundCommit { old_state, new_state, shot, hit }
    }
}

/// The guest program: the pure function a proving run executes. From a
/// well-formed initial state it replays the shots in order and returns
/// the initial digest with one `RoundCommit` per shot; on a malformed
/// initial state it refuses and no journal is produced.
pub fn process_shots(initial: GameState, shots: &Vec<Position>) -> (r: Option<
    (Digest, Vec<RoundCommit>),
>)
    ensures
        (r is Some) <==> spec_well_formed(initial),
        r matches Some((d0, cs)) ==> ({
            &&& d0@ == sha256_of(state_bytes(initial))
            &&& cs@.len() == shots@.len()
            &&& forall|i: int|
                0 < i < cs@.len() ==> (#[trigger] cs@[i]).old_state@ == cs@[i - 1].new_state@
            &&& cs@.len() > 0 ==> cs@[0].old_state@ == d0@
            &&& exists|states: Seq<GameState>| #[trigger] guest_trace(
                initial,
                shots@,
                states,
                cs@,
            )
        }),
{
    let mut state = initial;
    if !state.check() {
        return None;
    }
    proof {
        lemma_fleet_len(state.ships@);
    }
    let initial_commit = state.commit();
    let mut cs: Vec<RoundCommit> = Vec::new();
    let ghost mut states: Seq<GameState> = seq![initial];
    let n = shots.len();
    for i in 0..n
        invariant
            n == shots@.len(),
            cs@.len() == i,
            state.ships@.len() <= 5,
            states.len() == i + 1,
            states[0] == initial,
            states.last() == state,
            forall|ii: int|
                0 <= ii < i ==> guest_step(states[ii], shots@[ii], states[ii + 1], #[trigger] cs@[ii]),
            forall|ii: int|
                0 < ii < i ==> (#[trigger] cs@[ii]).old_state@ == cs@[ii - 1].new_state@,
            i > 0 ==> cs@[i - 1].new_state@ == sha256_of(state_bytes(state)),
            i == 0 ==> initial_commit@ == sha256_of(state_bytes(state)),
            cs@.len() > 0 ==> cs@[0].old_state@ == initial_commit@,
            initial_commit@ == sha256_of(state_bytes(initial)) || i > 0,
    {
        let rc = state.round_commit_for_shot(shots[i]);
        cs.push(rc);
        proof {
            states = states.push(state);
        }
    }
    proof {
        assert(guest_trace(initial, shots@, states, cs@));
    }
    Some((initial_commit, cs))
}

/// The guest's step relation: the record `rc` relates the state before
/// one shot to the state after it. A rejected shot leaves the state
/// unchanged and is recorded as a `Miss`; an accepted one follows the
/// shot transition with its exact outcome. Either way the record holds
/// the two states' digests.
pub open spec fn guest_step(pre: GameState, shot: Position, post: GameState, rc: RoundCommit) -> bool {
    &&& rc.shot == shot
    &&& rc.old_state@ == sha256_of(state_bytes(pre))
    &&& rc.new_state@ == sha256_of(state_bytes(post))
    &&& (spec_shot_rejected(pre, shot) ==> post == pre && rc.hit == HitType::Miss)
    &&& (!spec_shot_rejected(pre, shot) ==> rc.hit == spec_shot_outcome(pre, shot)
        && shot_transition(pre, post, shot))
}

/// A full guest run: the states the board passes through, one record
/// per shot, each step following the guest's step relation.
pub open spec fn guest_trace(
    initial: GameState,
    shots: Seq<Position>,
    states: Seq<GameState>,
    cs: Seq<RoundCommit>,
) -> bool {
    &&& cs.len() == shots.len()
    &&& states.len() == shots.len() + 1
    &&& states[0] == initial
    &&& forall|i: int|
        0 <= i < cs.len() ==> guest_step(states[i], shots[i], states[i + 1], #[trigger] cs[i])
}

/// Index of the first record at or after `i` whose shot is `shot`, or
/// `n` when none is.
pub open spec fn first_shot_from(b: Seq<u8>, shot: Position, n: int, i: int) -> int
    decreases n - i,
{
    if i < 0 || i >= n {
        n
    } else if commit_shot_at(b, 32 + 74 * i) == shot {
        i
    } else {
        first_shot_from(b, shot, n, i + 1)
    }
}

/// Verify a remote journal against a local authoritative state: the
/// journal must be well formed and carry records; its last record must
/// speak of `shot`, start from the digest of `server_state`, and end at
/// the digest that re-applying `shot` to `server_state` reproduces. On
/// success the whole record list is returned.
#[verifier::rlimit(100)]
pub fn verify_remote_round_proof(
    journal: &Vec<u8>,
    server_state: &GameState,
    shot: Position,
) -> (r: Result<Vec<RoundCommit>, ProofError>)
    requires
        server_state.ships@.len() <= 0xffff_ffff,
    ensures
        ({
            let b = journal@;
            let wf = wf_journal_bytes(b);
            let n = journal_count(b);
            let lastoff = 32 + 74 * (n - 1);
            let shot_ok = commit_shot_at(b, lastoff) == shot;
            let old_ok = commit_old_at(b, lastoff) == sha256_of(state_bytes(*server_state));
            let rejected = spec_shot_rejected(*server_state, shot);
            &&& ((r == Err::<Vec<RoundCommit>, ProofError>(ProofError::MalformedJournal)) <==> !wf)
            &&& ((r == Err::<Vec<RoundCommit>, ProofError>(ProofError::EmptyJournal)) <==> (wf && n
                == 0))
            &&& ((r == Err::<Vec<RoundCommit>, ProofError>(ProofError::ShotMismatch)) <==> (wf && n
                > 0 && !shot_ok))
            &&& ((r == Err::<Vec<RoundCommit>, ProofError>(ProofError::OldStateMismatch)) <==> (wf
                && n > 0 && shot_ok && !old_ok))
            &&& ((r == Err::<Vec<RoundCommit>, ProofError>(ProofError::InvalidShot)) <==> (wf && n
                > 0 && shot_ok && old_ok && rejected))
            &&& ((r == Err::<Vec<RoundCommit>, ProofError>(ProofError::NewStateMismatch)) <==> (wf
                && n > 0 && shot_ok && old_ok && !rejected && (forall|post: GameState|
                #[trigger] shot_transition(*server_state, post, shot) ==> commit_new_at(b, lastoff)
                    != sha256_of(state_bytes(post)))))
            &&& ((r is Ok) <==> (wf && n > 0 && shot_ok && old_ok && !rejected && (exists|
                post: GameState,
            |
                #[trigger] shot_transition(*server_state, post, shot) && commit_new_at(b, lastoff)
                    == sha256_of(state_bytes(post)))))
            &&& (r matches Ok(cs) ==> cs@.len() == n && forall|i: int|
                0 <= i < n ==> round_commit_bytes(#[trigger] cs@[i]) == b.subrange(
                    32 + 74 * i,
                    106 + 74 * i,
                ))
        }),
{
    let commits = match extract_round_commits(journal) {
        Ok(c) => c,
        Err(e) => {
            return Err(e);
        },
    };
    if commits.len() == 0 {
        return Err(ProofError::EmptyJournal);
    }
    let last = commits.len() - 1;
    let rc = commits[last];
    proof {
        lemma_commit_fields_at(rc, journal@, 32 + 74 * (last as int));
    }
    if !(rc.shot.x == shot.x && rc.shot.y == shot.y) {
        return Err(ProofError::ShotMismatch);
    }
    let expected_old = server_state.commit();
    if !rc.old_state.equals(&expected_old) {
        return Err(ProofError::OldStateMismatch);
    }
    let mut replay = server_state.duplicate();
    proof {
        crate::codec::lemma_state_bytes_determined(replay, *server_state);
    }
    let ghost before = replay;
    match replay.apply_shot(shot) {
        None => {
            return Err(ProofError::InvalidShot);
        },
        Some(_) => {},
    }
    proof {
        crate::board::lemma_first_cover_bounds(before.ships@, shot.x as int, shot.y as int);
        assert(shot_transition(*server_state, replay, shot)) by {
            assert forall|xi: int, yi: int| 0 <= xi < 10 && 0 <= yi < 10 implies cell_at(
                replay,
                xi,
                yi,
            ) == (if xi == shot.x as int && yi == shot.y as int {
                if first_cover(server_state.ships@, shot.x as int, shot.y as int)
                    < server_state.ships@.len() {
                    crate::board::CellState::Hit
                } else {
                    crate::board::CellState::Miss
                }
            } else {
                cell_at(*server_state, xi, yi)
            }) by {}
        }
    }
    let new_digest = replay.commit();
    if !rc.new_state.equals(&new_digest) {
        proof {
            assert forall|post: GameState|
                #[trigger] shot_transition(*server_state, post, shot) implies commit_new_at(
                journal@,
                32 + 74 * (journal_count(journal@) - 1),
            ) != sha256_of(state_bytes(post)) by {
                assert(post.ships@ == replay.ships@);
                assert(post.pepper@ == replay.pepper@);
                assert forall|xi: int, yi: int| 0 <= xi < 10 && 0 <= yi < 10 implies #[trigger] cell_at(
                    post,
                    xi,
                    yi,
                ) == cell_at(replay, xi, yi) by {}
                crate::codec::lemma_state_bytes_determined(post, replay);
            }
        }
        return Err(ProofError::NewStateMismatch);
    }
    Ok(commits)
}

/// Verify a shot result as the shooter, who holds only the opponent's
/// last commitment: the journal must be well formed, some record must
/// speak of `shot` — the first such record is taken — and that record
/// must start from `expected_old`. The matching record is returned; its
/// new state is what the shooter adopts as the opponent's commitment.
#[verifier::rlimit(100)]
pub fn verify_shot_result_for_shooter(
    journal: &Vec<u8>,
    expected_old: &Digest,
    shot: Position,
) -> (r: Result<RoundCommit, ProofError>)
    ensures
        ({
            let b = journal@;
            let wf = wf_journal_bytes(b);
            let n = journal_count(b);
            let k = first_shot_from(b, shot, n, 0);
            &&& ((r == Err::<RoundCommit, ProofError>(ProofError::MalformedJournal)) <==> !wf)
            &&& ((r == Err::<RoundCommit, ProofError>(ProofError::EmptyJournal)) <==> (wf && n
                == 0))
            &&& ((r == Err::<RoundCommit, ProofError>(ProofError::ShotMismatch)) <==> (wf && n > 0
                && k == n))
            &&& ((r == Err::<RoundCommit, ProofError>(ProofError::OldStateMismatch)) <==> (wf && n
                > 0 && k < n && commit_old_at(b, 32 + 74 * k) != expected_old@))
            &&& ((r is Ok) <==> (wf && n > 0 && k < n && commit_old_at(b, 32 + 74 * k)
                == expected_old@))
            &&& (r matches Ok(rc) ==> round_commit_bytes(rc) == b.subrange(
                32 + 74 * k,
                106 + 74 * k,
            ) && rc.shot == shot && rc.old_state@ == expected_old@)
        }),
{
    let commits = match extract_round_commits(journal) {
        Ok(c) => c,
        Err(e) => {
            return Err(e);
        },
    };
    let n = commits.len();
    if n == 0 {
        return Err(ProofError::EmptyJournal);
    }
    let ghost b = journal@;
    for i in 0..n
        invariant
            n == commits@.len(),
            n == journal_count(b),
            b == journal@,
            wf_journal_bytes(b),
            b.len() == 32 + 74 * (n as int),
            forall|ii: int|
                0 <= ii < n ==> round_commit_bytes(#[trigger] commits@[ii]) == b.subrange(
                    32 + 74 * ii,
                    106 + 74 * ii,
                ),
            first_shot_from(b, shot, n as int, 0) == first_shot_from(b, shot, n as int, i as int),
    {
        let rc = commits[i];
        proof {
            lemma_commit_fields_at(rc, b, 32 + 74 * (i as int));
        }
        if rc.shot.x == shot.x && rc.shot.y == shot.y {
            proof {
                assert(first_shot_from(b, shot, n as int, 0) == i);
            }
            if !rc.old_state.equals(expected_old) {
                return Err(ProofError::OldStateMismatch);
            }
            return Ok(rc);
        }
    }
    proof {
        assert(first_shot_from(b, shot, n as int, 0) == n);
    }
    Err(ProofError::ShotMismatch)
}

/// Serialize a whole journal: the initial digest, then the commits.
pub fn encode_journal(initial: &Digest, commits: &Vec<RoundCommit>) -> (out: Vec<u8>)
    ensures
        out@ == journal_bytes(initial@, commits@),
{
    let mut out: Vec<u8> = Vec::new();
    push_digest(&mut out, initial);
    let n = commits.len();
    for i in 0..n
        invariant
            n == commits@.len(),
            out@ == initial@ + commits_bytes(commits@.subrange(0, i as int)),
    {
        let ghost prefix = commits@.subrange(0, i as int);
        push_round_commit(&mut out, &commits[i]);
        proof {
            lemma_commits_bytes_push(prefix, commits@[i as int]);
            assert(prefix.push(commits@[i as int]) =~= commits@.subrange(0, i + 1));
        }
    }
    proof {
        assert(commits@.subrange(0, n as int) =~= commits@);
    }
    out
}

} // verus!
