//! The two-peer round protocol: handshake bookkeeping, turn ownership,
//! the shooter's verification of a shot result, the defender's reply,
//! and game termination.

use crate::board::GameState;
use crate::board::HitType;
use crate::board::Position;
use crate::board::CellState;
use crate::board::ShipType;
use crate::board::Direction;
use crate::board::cell_at;
use crate::board::spec_in_bounds;
use crate::board::spec_shot_outcome;
use crate::board::spec_shot_rejected;
use crate::board::shot_transition;
use crate::codec::state_bytes;
use crate::crypto::Digest;
use crate::crypto::sha256_of;
use crate::journal::ProofError;
use crate::journal::RoundCommit;
use crate::journal::commit_new_at;
use crate::journal::commit_old_at;
use crate::journal::encode_journal;
use crate::journal::first_shot_from;
use crate::journal::journal_bytes;
use crate::journal::journal_count;
use crate::journal::round_commit_bytes;
use crate::journal::verify_shot_result_for_shooter;
use crate::journal::wf_journal_bytes;
use vstd::prelude::*;

verus! {

/// Whose turn it is to shoot.
#[derive(Debug, Clone, Copy, PartialEq, Eq, Structural)]
pub enum Turn {
    Local,
    Remote,
}

/// Where the session stands.
#[derive(Debug, Clone, Copy, PartialEq, Eq, Structural)]
pub enum GamePhase {
    AwaitingHandshake,
    Playing,
    Finished,
}

/// The shooter keeps the turn only on a plain hit; a miss or a sunk
/// ship passes it to the opponent.
pub open spec fn spec_turn_after_shot(h: HitType) -> Turn {
    match h {
        HitType::Miss => Turn::Remote,
        HitType::Hit => Turn::Local,
        HitType::Sunk(_) => Turn::Remote,
    }
}

/// Marks one observed `Sunk` per opponent ship kind.
pub open spec fn all_observed(sunk: Seq<bool>) -> bool {
    forall|i: int| 0 <= i < 5 ==> sunk[i]
}

/// The canonical demo fleet: one ship of each kind, placed vertically
/// on every other column.
pub open spec fn canonical_columns() -> Seq<(ShipType, Position, Direction)> {
    seq![
        (ShipType::Carrier, Position { x: 0, y: 0 }, Direction::Vertical),
        (ShipType::Battleship, Position { x: 2, y: 0 }, Direction::Vertical),
        (ShipType::Cruiser, Position { x: 4, y: 0 }, Direction::Vertical),
        (ShipType::Submarine, Position { x: 6, y: 0 }, Direction::Vertical),
        (ShipType::Destroyer, Position { x: 8, y: 0 }, Direction::Vertical),
    ]
}

/// Place a deterministic opponent fleet, one ship per kind in canonical
/// columns; placements that do not fit the current fleet are skipped,
/// as in any batched placement.
pub fn place_opponent_deterministic(op: &mut GameState)
    ensures
        final(op).ships@ == crate::board::place_all_ships(old(op).ships@, canonical_columns(), 5),
        final(op).pepper == old(op).pepper,
        final(op).grid == old(op).grid,
{
    let mut list: Vec<(ShipType, Position, Direction)> = Vec::new();
    list.push((ShipType::Carrier, Position::new(0, 0), Direction::Vertical));
    list.push((ShipType::Battleship, Position::new(2, 0), Direction::Vertical));
    list.push((ShipType::Cruiser, Position::new(4, 0), Direction::Vertical));
    list.push((ShipType::Submarine, Position::new(6, 0), Direction::Vertical));
    list.push((ShipType::Destroyer, Position::new(8, 0), Direction::Vertical));
    proof {
        assert(list@ =~= canonical_columns());
    }
    let _ = op.place_ships(list);
}

/// One peer's protocol state: its own authoritative board and
/// commitment, what it knows of the opponent, and whose turn it is.
pub struct GameCoordinator {
    pub local_state: GameState,
    pub local_commit: Digest,
    pub player_name: String,
    pub starts_first: bool,
    pub opponent_name: Option<String>,
    pub opponent_commit: Option<Digest>,
    /// Tracking view of the opponent's board: only observed hits and
    /// misses, never ships.
    pub opponent_view: GameState,
    pub turn: Turn,
    pub phase: GamePhase,
    /// Which opponent ship kinds have been observed sunk, by kind index.
    pub opponent_sunk: [bool; 5],
}

impl GameCoordinator {
    /// A coordinator before the handshake: nothing is known of the
    /// opponent, and the configured side will shoot first.
    pub fn new(local_state: GameState, local_commit: Digest, player_name: String, starts_first: bool) -> (r: Self)
        ensures
            r.local_state == local_state,
            r.local_commit == local_commit,
            r.player_name == player_name,
            r.starts_first == starts_first,
            r.opponent_name is None,
            r.opponent_commit is None,
            r.opponent_view.ships@.len() == 0,
            r.turn == (if starts_first { Turn::Local } else { Turn::Remote }),
            r.phase == GamePhase::AwaitingHandshake,
            forall|i: int| 0 <= i < 5 ==> !r.opponent_sunk@[i],
    {
        Self {
            local_state,
            local_commit,
            player_name,
            starts_first,
            opponent_name: None,
            opponent_commit: None,
            opponent_view: GameState::new([0;16]),
            turn: if starts_first {
                Turn::Local
            } else {
                Turn::Remote
            },
            phase: GamePhase::AwaitingHandshake,
            opponent_sunk: [false;5],
        }
    }

    /// Record the opponent's handshake: name and board commitment; the
    /// game is then in play.
    pub fn record_handshake(&mut self, name: String, commitment: Digest)
        ensures
            *final(self) == (GameCoordinator {
                opponent_name: Some(name),
                opponent_commit: Some(commitment),
                phase: GamePhase::Playing,
                ..*old(self)
            }),
    {
        self.opponent_name = Some(name);
        self.opponent_commit = Some(commitment);
        self.phase = GamePhase::Playing;
    }

    /// The turn-transfer rule, seen from the shooter: a miss or a sunk
    /// ship passes the turn, a plain hit grants another shot.
    pub fn turn_after_shot(hit: &HitType) -> (r: Turn)
        ensures
            r == spec_turn_after_shot(*hit),
    {
        match hit {
            HitType::Miss => Turn::Remote,
            HitType::Hit => Turn::Local,
            HitType::Sunk(_) => Turn::Remote,
        }
    }

    /// Has the local player observed every opponent ship kind sunk?
    pub fn local_player_won(&self) -> (r: bool)
        ensures
            r == all_observed(self.opponent_sunk@),
    {
        let r = self.opponent_sunk[0] && self.opponent_sunk[1] && self.opponent_sunk[2]
            && self.opponent_sunk[3] && self.opponent_sunk[4];
        proof {
            if r {
                assert forall|i: int| 0 <= i < 5 implies self.opponent_sunk@[i] by {
                    if i == 0 {
                    } else if i == 1 {
                    } else if i == 2 {
                    } else if i == 3 {
                    } else {
                        assert(i == 4);
                    }
                }
            }
        }
        r
    }

    /// The shooter's handling of a `ShotResult` for its outstanding shot
    /// at `shot`: verify the journal against the opponent commitment on
    /// record, adopt the commit's new state as that commitment, record
    /// the observed hit or miss on the tracking view, apply the
    /// turn-transfer rule, and note a sunk ship kind; when all five have
    /// been observed sunk the game is over and won.
    pub fn accept_shot_result(&mut self, shot: Position, journal: &Vec<u8>) -> (r: Result<
        RoundCommit,
        ProofError,
    >)
        requires
            old(self).opponent_commit is Some,
            spec_in_bounds(shot),
        ensures
            r is Err ==> *final(self) == *old(self),
            ({
                let b = journal@;
                let n = journal_count(b);
                let k = first_shot_from(b, shot, n, 0);
                (r is Ok) <==> (wf_journal_bytes(b) && n > 0 && k < n && commit_old_at(
                    b,
                    32 + 74 * k,
                ) == old(self).opponent_commit.unwrap()@)
            }),
            r matches Ok(rc) ==> ({
                &&& rc.shot == shot
                &&& rc.old_state@ == old(self).opponent_commit.unwrap()@
                &&& final(self).opponent_commit == Some(rc.new_state)
                &&& final(self).turn == spec_turn_after_shot(rc.hit)
                &&& final(self).local_state == old(self).local_state
                &&& final(self).local_commit == old(self).local_commit
                &&& final(self).opponent_view.ships@ == old(self).opponent_view.ships@
                &&& forall|xi: int, yi: int|
                    0 <= xi < 10 && 0 <= yi < 10 ==> #[trigger] cell_at(
                        final(self).opponent_view,
                        xi,
                        yi,
                    ) == (if xi == shot.x as int && yi == shot.y as int {
                        match rc.hit {
                            HitType::Miss => CellState::Miss,
                            _ => CellState::Hit,
                        }
                    } else {
                        cell_at(old(self).opponent_view, xi, yi)
                    })
                &&& final(self).opponent_sunk@ == (match rc.hit {
                    HitType::Sunk(t) => old(self).opponent_sunk@.update(
                        crate::board::ship_type_index(t),
                        true,
                    ),
                    _ => old(self).opponent_sunk@,
                })
                &&& final(self).phase == (if all_observed(final(self).opponent_sunk@) {
                    GamePhase::Finished
                } else {
                    old(self).phase
                })
            }),
    {
        let expected_old = match &self.opponent_commit {
            Some(d) => *d,
            None => Digest { bytes: [0;32] },  // unreachable under the precondition
        };
        let rc = match verify_shot_result_for_shooter(journal, &expected_old, shot) {
            Ok(rc) => rc,
            Err(e) => {
                return Err(e);
            },
        };
        self.opponent_commit = Some(rc.new_state);

        let x = shot.x as usize;
        let y = shot.y as usize;
        let observed = match rc.hit {
            HitType::Miss => CellState::Miss,
            _ => CellState::Hit,
        };
        let mut row = self.opponent_view.grid[y];
        row[x] = observed;
        self.opponent_view.grid[y] = row;

        self.turn = Self::turn_after_shot(&rc.hit);

        match rc.hit {
            HitType::Sunk(t) => {
                let idx = t.index();
                self.opponent_sunk[idx] = true;
            },
            _ => {},
        }
        if self.local_player_won() {
            self.phase = GamePhase::Finished;
        }
        Ok(rc)
    }

    /// The defender's handling of a `TakeShot` at `shot`: record the
    /// round against the authoritative board — which applies the shot —
    /// emit the single-round journal the reply's proof carries, and
    /// apply the turn-transfer rule from the defender's side: the
    /// shooter keeps the turn exactly on a plain hit.
    pub fn respond_to_shot(&mut self, shot: Position) -> (r: (RoundCommit, Vec<u8>))
        requires
            old(self).local_state.ships@.len() <= 0xffff_ffff,
        ensures
            ({
                let (rc, journal) = r;
                &&& rc.shot == shot
                &&& rc.old_state@ == sha256_of(state_bytes(old(self).local_state))
                &&& rc.new_state@ == sha256_of(state_bytes(final(self).local_state))
                &&& (spec_shot_rejected(old(self).local_state, shot) ==> final(self).local_state
                    == old(self).local_state && rc.hit == HitType::Miss)
                &&& (!spec_shot_rejected(old(self).local_state, shot) ==> rc.hit
                    == spec_shot_outcome(old(self).local_state, shot) && shot_transition(
                    old(self).local_state,
                    final(self).local_state,
                    shot,
                ))
                &&& journal@ == journal_bytes(rc.old_state@, seq![rc])
                &&& final(self).turn == (match rc.hit {
                    HitType::Miss => Turn::Local,
                    HitType::Hit => Turn::Remote,
                    HitType::Sunk(_) => Turn::Local,
                })
                &&& final(self).opponent_commit == old(self).opponent_commit
                &&& final(self).opponent_view == old(self).opponent_view
                &&& final(self).phase == old(self).phase
            }),
    {
        let rc = self.local_state.round_commit_for_shot(shot);
        let mut commits: Vec<RoundCommit> = Vec::new();
        commits.push(rc);
        let journal = encode_journal(&rc.old_state, &commits);
        self.turn = match rc.hit {
            HitType::Miss => Turn::Local,
            HitType::Hit => Turn::Remote,
            HitType::Sunk(_) => Turn::Local,
        };
        proof {
            assert(commits@ =~= seq![rc]);
        }
        (rc, journal)
    }
}

} // verus!
