use battleship::Direction;
use battleship::GameCoordinator;
use battleship::GamePhase;
use battleship::GameState;
use battleship::HitType;
use battleship::Position;
use battleship::ProofData;
use battleship::ProofError;
use battleship::RoundCommit;
use battleship::Session;
use battleship::SessionError;
use battleship::ShipType;
use battleship::Turn;
use battleship::decode_game_state;
use battleship::decode_proof_data;
use battleship::encode_game_state;
use battleship::encode_journal;
use battleship::encode_proof_data;
use battleship::extract_round_commits;
use battleship::make_auth_token;
use battleship::check_auth_token;
use battleship::process_shots;
use battleship::verify_remote_round_proof;
use battleship::Envelope;
use battleship::GameMessage;

fn canonical_rows() -> GameState {
    let mut s = GameState::new([0; 16]);
    assert!(s.place_ship(ShipType::Carrier, Position::new(0, 0), Direction::Horizontal));
    assert!(s.place_ship(ShipType::Battleship, Position::new(0, 2), Direction::Horizontal));
    assert!(s.place_ship(ShipType::Cruiser, Position::new(0, 4), Direction::Horizontal));
    assert!(s.place_ship(ShipType::Submarine, Position::new(0, 6), Direction::Horizontal));
    assert!(s.place_ship(ShipType::Destroyer, Position::new(0, 8), Direction::Horizontal));
    s
}

#[test]
fn game_state_codec_round_trip() {
    let mut s = canonical_rows();
    let _ = s.apply_shot(Position::new(0, 0));
    let _ = s.apply_shot(Position::new(9, 9));
    let bytes = encode_game_state(&s);
    let back = decode_game_state(&bytes).expect("canonical bytes must decode");
    assert_eq!(back, s);
}

#[test]
fn game_state_decode_rejects_garbage() {
    // too short
    assert!(decode_game_state(&vec![1, 2, 3]).is_none());
    // ship count that does not match the length
    let mut bytes = encode_game_state(&canonical_rows());
    bytes[0] = 7;
    assert!(decode_game_state(&bytes).is_none());
    // a ship-kind tag out of range
    let mut bytes2 = encode_game_state(&canonical_rows());
    bytes2[4] = 9;
    assert!(decode_game_state(&bytes2).is_none());
}

#[test]
fn commit_matches_known_digest() {
    let empty = GameState::new([0; 16]);
    let d = empty.commit();
    let expected: [u8; 32] = [
        0x6e, 0xdd, 0x9f, 0x6f, 0x9c, 0xc9, 0x2c, 0xde, 0xd3, 0x6e, 0x6c, 0x4a, 0x58, 0x09, 0x33,
        0xf9, 0xc9, 0xf1, 0xb9, 0x05, 0x62, 0xb4, 0x69, 0x03, 0xb8, 0x06, 0xf2, 0x19, 0x02, 0xa1,
        0xa5, 0x4f,
    ];
    assert_eq!(d.bytes, expected);

    let mut one = GameState::new([0; 16]);
    assert!(one.place_ship(ShipType::Destroyer, Position::new(2, 2), Direction::Horizontal));
    let d1 = one.commit();
    let expected1: [u8; 32] = [
        0xec, 0xe4, 0x36, 0xc7, 0xf7, 0xf7, 0x0f, 0xd7, 0xc5, 0x0f, 0xa7, 0x5d, 0x5c, 0x04, 0x58,
        0x60, 0xc2, 0xfc, 0xbd, 0x03, 0x7b, 0x40, 0x1b, 0x3b, 0x62, 0xb2, 0xd1, 0x01, 0x27, 0x46,
        0x64, 0x22,
    ];
    assert_eq!(d1.bytes, expected1);
}

#[test]
fn canonical_encoding_matches_expected_bytes() {
    // one Destroyer at (2,2) horizontal: count, then kind tag 4, x and y
    // as little-endian u32s, direction tag, hit mask, pepper, grid
    let mut s = GameState::new([0; 16]);
    assert!(s.place_ship(ShipType::Destroyer, Position::new(2, 2), Direction::Horizontal));
    let bytes = encode_game_state(&s);
    assert_eq!(bytes.len(), 131);
    assert_eq!(&bytes[0..15], &[1, 0, 0, 0, 4, 2, 0, 0, 0, 2, 0, 0, 0, 0, 0]);
    assert!(bytes[15..].iter().all(|&b| b == 0));
}

#[test]
fn journal_codec_round_trip() {
    let mut defender = canonical_rows();
    let initial = defender.commit();
    let shots = vec![Position::new(0, 0), Position::new(9, 9), Position::new(0, 1)];
    let (d0, commits) = process_shots(defender, &shots).expect("well-formed board must prove");
    assert_eq!(d0, initial);
    let journal = encode_journal(&d0, &commits);
    let back = extract_round_commits(&journal).expect("encoded journal must parse");
    assert_eq!(back, commits);
}

#[test]
fn journal_rejects_malformed_bytes() {
    // not even room for the initial digest
    assert_eq!(extract_round_commits(&vec![0u8; 31]), Err(ProofError::MalformedJournal));
    // trailing bytes that are not whole records
    assert_eq!(extract_round_commits(&vec![0u8; 33]), Err(ProofError::MalformedJournal));
    // a record with a hit tag out of range
    let mut bytes = vec![0u8; 32 + 74];
    bytes[32 + 72] = 9;
    assert_eq!(extract_round_commits(&bytes), Err(ProofError::MalformedJournal));
}

#[test]
fn proof_data_round_trip_preserves_shot() {
    let mut defender = canonical_rows();
    let _ = defender.commit();
    let shots = vec![Position::new(3, 0)];
    let (_, commits) = process_shots(defender, &shots).expect("well-formed board must prove");
    let rc: RoundCommit = commits[0];
    let pd = ProofData::from_bytes(vec![1, 2, 3, 4, 5], rc);
    let bytes = encode_proof_data(&pd);
    let back = decode_proof_data(&bytes).expect("encoded proof must decode");
    assert_eq!(back.commit.shot, pd.commit.shot);
    assert_eq!(back, pd);
}

#[test]
fn process_shots_refuses_malformed_board() {
    // an incomplete fleet fails the consistency check, so no journal is produced
    let mut partial = GameState::new([0; 16]);
    assert!(partial.place_ship(ShipType::Carrier, Position::new(0, 0), Direction::Horizontal));
    assert!(process_shots(partial, &vec![Position::new(0, 0)]).is_none());
}

#[test]
fn process_shots_chains_commitments() {
    let defender = canonical_rows();
    let shots = vec![Position::new(0, 0), Position::new(5, 5), Position::new(1, 0)];
    let (d0, commits) = process_shots(defender, &shots).expect("well-formed board must prove");
    assert_eq!(commits.len(), 3);
    assert_eq!(commits[0].old_state, d0);
    assert_eq!(commits[1].old_state, commits[0].new_state);
    assert_eq!(commits[2].old_state, commits[1].new_state);
    assert_eq!(commits[0].hit, HitType::Hit);
    assert_eq!(commits[1].hit, HitType::Miss);
    assert_eq!(commits[2].hit, HitType::Hit);
}

#[test]
fn round_protocol_sanity() {
    // Peer A shoots (0,0) against B: the verified commit starts at B's
    // commitment before the shot and ends at B's commitment after it.
    let mut b = canonical_rows();
    let before = b.commit();

    let b_snapshot = b.clone();
    let mut defender = GameCoordinator::new(b, before, String::from("B"), false);
    let (rc, journal) = defender.respond_to_shot(Position::new(0, 0));
    let after = defender.local_state.commit();

    assert_eq!(rc.old_state, before);
    assert_eq!(rc.new_state, after);
    assert_eq!(rc.hit, HitType::Hit);
    assert_eq!(defender.turn, Turn::Remote);

    // the defender-side verifier accepts the journal against B's old state
    let commits = verify_remote_round_proof(&journal, &b_snapshot, Position::new(0, 0))
        .expect("an honest journal must verify");
    assert_eq!(commits.len(), 1);
    assert_eq!(commits[0], rc);
}

#[test]
fn shooter_accepts_result_and_adopts_commitment() {
    let mut b = canonical_rows();
    let b_commit = b.commit();
    let mut defender = GameCoordinator::new(b.clone(), b_commit, String::from("B"), false);

    let a_state = canonical_rows();
    let a_commit = a_state.commit();
    let mut shooter = GameCoordinator::new(a_state, a_commit, String::from("A"), true);
    shooter.record_handshake(String::from("B"), b_commit);
    assert_eq!(shooter.phase, GamePhase::Playing);

    let shot = Position::new(0, 0);
    let (rc, journal) = defender.respond_to_shot(shot);

    let accepted = shooter.accept_shot_result(shot, &journal).expect("honest result accepted");
    assert_eq!(accepted.old_state, b_commit);
    assert_eq!(shooter.opponent_commit, Some(rc.new_state));
    // a plain hit grants another shot
    assert_eq!(shooter.turn, Turn::Local);

    // the tracking view records the observed hit
    assert_eq!(shooter.opponent_view.grid[0][0], battleship::CellState::Hit);

    // replaying the same proof against the adopted commitment is rejected
    let replay = shooter.accept_shot_result(shot, &journal);
    assert_eq!(replay, Err(ProofError::OldStateMismatch));
}

#[test]
fn verifier_rejects_each_mismatch() {
    let b = canonical_rows();
    let mut defender_state = b.clone();
    let before = defender_state.commit();
    let shot = Position::new(4, 4);
    let rc = defender_state.round_commit_for_shot(shot);
    let mut commits = Vec::new();
    commits.push(rc);
    let journal = encode_journal(&rc.old_state, &commits);

    // wrong shot
    assert_eq!(
        verify_remote_round_proof(&journal, &b, Position::new(5, 5)),
        Err(ProofError::ShotMismatch)
    );
    // wrong base state: a board whose pepper differs commits differently
    let mut other = canonical_rows();
    other.pepper[0] = 1;
    assert_eq!(
        verify_remote_round_proof(&journal, &other, shot),
        Err(ProofError::OldStateMismatch)
    );
    // a journal with no commits at all
    let empty_journal = encode_journal(&before, &Vec::new());
    assert_eq!(
        verify_remote_round_proof(&empty_journal, &b, shot),
        Err(ProofError::EmptyJournal)
    );
    // a tampered new-state digest
    let mut tampered = journal.clone();
    let len = tampered.len();
    tampered[len - 42] ^= 1;
    assert_eq!(
        verify_remote_round_proof(&tampered, &b, shot),
        Err(ProofError::NewStateMismatch)
    );
    // a shot the authoritative board rejects
    let mut shot_board = b.clone();
    let _ = shot_board.apply_shot(shot);
    let mut shot_board_copy = shot_board.clone();
    let rc2 = shot_board_copy.round_commit_for_shot(shot);
    let mut commits2 = Vec::new();
    commits2.push(rc2);
    let journal2 = encode_journal(&rc2.old_state, &commits2);
    assert_eq!(
        verify_remote_round_proof(&journal2, &shot_board, shot),
        Err(ProofError::InvalidShot)
    );
    // the honest case still passes
    assert!(verify_remote_round_proof(&journal, &b, shot).is_ok());
}

#[test]
fn auth_token_matches_known_vector() {
    let secret = b"match-secret".to_vec();
    let body = b"envelope-body".to_vec();
    let token = make_auth_token(&secret, &body);
    assert_eq!(token, "jBQ6Blup7XtQNIuvtDia7ouF77UbjPQ6OGHKnWTvzVc=");
    assert!(check_auth_token(&secret, &body, &Some(token)));
}

#[test]
fn tampered_auth_token_rejected() {
    let secret = b"match-secret".to_vec();
    let body = b"envelope-body".to_vec();
    let token = make_auth_token(&secret, &body);
    // flip one bit of the token: the first character 'j' becomes 'k'
    let mut tampered = String::from("k");
    tampered.push_str(&token[1..]);
    assert!(!check_auth_token(&secret, &body, &Some(tampered)));
    // a missing token is rejected too
    assert!(!check_auth_token(&secret, &body, &None));
    // a token for a different body is rejected
    let other = make_auth_token(&secret, &b"another-body".to_vec());
    assert!(!check_auth_token(&secret, &body, &Some(other)));
}

#[test]
fn session_sequence_discipline() {
    let mut sender = Session::new(None);
    sender.set_match_id(7);
    let mut receiver = Session::new(None);

    // seq numbers observed in order are 0, 1, 2
    for expected in 0..3u64 {
        let env = sender.next_envelope(GameMessage::TakeShot { position: Position::new(0, 0) });
        assert_eq!(env.seq, expected);
        let body = Vec::new();
        assert_eq!(receiver.accept_envelope(&env, &body), Ok(()));
    }
    assert_eq!(receiver.expected_seq, 3);
    assert_eq!(receiver.match_id, Some(7));

    // a replayed envelope desyncs the sequence and is rejected
    let env = Envelope::new(7, 1, GameMessage::GameOver { winner: String::from("A") });
    assert_eq!(receiver.accept_envelope(&env, &Vec::new()), Err(SessionError::SequenceError));

    // a foreign match id is rejected
    let env = Envelope::new(8, 3, GameMessage::GameOver { winner: String::from("A") });
    assert_eq!(receiver.accept_envelope(&env, &Vec::new()), Err(SessionError::SequenceError));
}

#[test]
fn session_authenticates_envelopes() {
    let secret = b"0123456789abcdef0123456789abcdef".to_vec();
    let mut sender = Session::new(Some(secret.clone()));
    sender.set_match_id(1);
    let mut receiver = Session::new(Some(secret.clone()));

    let mut env = sender.next_envelope(GameMessage::TakeShot { position: Position::new(2, 3) });
    // the body stands for the envelope's serialization with the token cleared
    let body = b"serialized-envelope-without-token".to_vec();
    env.auth_token = sender.auth_token_for(&body);

    assert_eq!(receiver.accept_envelope(&env, &body), Ok(()));

    // the same envelope with a stripped token fails authentication
    let mut stripped = env.clone();
    stripped.auth_token = None;
    assert_eq!(receiver.accept_envelope(&stripped, &body), Err(SessionError::AuthFailure));
}

#[test]
fn coordinator_tracks_sunk_fleet_to_victory() {
    let mut b = canonical_rows();
    let b_commit = b.commit();
    let mut defender = GameCoordinator::new(b, b_commit, String::from("B"), false);

    let a_state = canonical_rows();
    let a_commit = a_state.commit();
    let mut shooter = GameCoordinator::new(a_state, a_commit, String::from("A"), true);
    shooter.record_handshake(String::from("B"), b_commit);

    // sink the whole fleet row by row
    for y in [0u32, 2, 4, 6, 8] {
        for x in 0..10u32 {
            if defender.local_state.grid[y as usize][x as usize] != battleship::CellState::Empty {
                continue;
            }
            let shot = Position::new(x, y);
            let covered = defender
                .local_state
                .ships
                .iter()
                .any(|s| s.covers_cell(shot));
            if !covered {
                continue;
            }
            let (_, journal) = defender.respond_to_shot(shot);
            shooter.accept_shot_result(shot, &journal).expect("honest result accepted");
        }
    }
    assert!(defender.local_state.all_sunk());
    assert!(shooter.local_player_won());
    assert_eq!(shooter.phase, GamePhase::Finished);
}
