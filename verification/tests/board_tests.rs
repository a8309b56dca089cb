use battleship::BOARD_SIZE;
use battleship::CellState;
use battleship::Direction;
use battleship::GameState;
use battleship::HitType;
use battleship::Position;
use battleship::Ship;
use battleship::ShipType;

#[test]
fn test_basic_board() {
    let state = GameState {
        ships: vec![
            Ship::new(ShipType::Carrier, Position::new(2, 3), Direction::Vertical),
            Ship::new(ShipType::Battleship, Position::new(3, 1), Direction::Horizontal),
            Ship::new(ShipType::Cruiser, Position::new(4, 7), Direction::Vertical),
            Ship::new(ShipType::Submarine, Position::new(7, 5), Direction::Horizontal),
            Ship::new(ShipType::Destroyer, Position::new(7, 7), Direction::Horizontal),
        ],
        pepper: [0; 16],
        grid: [[CellState::Empty; BOARD_SIZE]; BOARD_SIZE],
    };
    assert!(state.check());
}

#[test]
fn test_random_boards() {
    for _ in 0..100 {
        let mut state = GameState::new([0; 16]);
        assert!(state.place_ships_randomly());
        assert!(state.check());
    }
}

#[test]
fn test_shot_before_start_not_hit() {
    let mut state = GameState {
        ships: vec![Ship::new(ShipType::Cruiser, Position::new(5, 5), Direction::Horizontal)],
        pepper: [0; 16],
        grid: [[CellState::Empty; BOARD_SIZE]; BOARD_SIZE],
    };

    // Shot before the ship's start should be a miss
    let res = state.apply_shot(Position::new(4, 5));
    assert_eq!(res, Some(HitType::Miss));
    // Ship's hit mask should remain zero
    assert_eq!(state.ships[0].hits, 0u8);
    assert_eq!(state.grid[5][4], CellState::Miss);
}

#[test]
fn test_boundary_placement() {
    let state = GameState::new([0; 16]);
    // Carrier size 5 placed at x=5 horizontally should end at x=9 (valid)
    assert!(state.can_place_ship(ShipType::Carrier, Position::new(5, 9), Direction::Horizontal));
    // Carrier at x=6 would end at x=10 which is out of bounds
    assert!(!state.can_place_ship(ShipType::Carrier, Position::new(6, 9), Direction::Horizontal));
}

#[test]
fn test_overlap_detection() {
    let mut state = GameState::new([0; 16]);
    assert!(state.place_ship(ShipType::Carrier, Position::new(0, 0), Direction::Horizontal));
    // Battleship overlapping carrier should fail placement
    assert!(!state.place_ship(ShipType::Battleship, Position::new(0, 0), Direction::Vertical));
    // Non-overlapping placement should succeed
    assert!(state.place_ship(ShipType::Battleship, Position::new(0, 1), Direction::Vertical));
}

#[test]
fn test_sink_ship() {
    // Place a carrier horizontally at (0,0)
    let mut state = GameState::new([0; 16]);
    assert!(state.place_ship(ShipType::Carrier, Position::new(0, 0), Direction::Horizontal));

    // Fire at each segment; the final shot should report Sunk
    for i in 0..5 {
        let pos = Position::new(i, 0);
        let res = state.apply_shot(pos);
        if i < 4 {
            assert_eq!(res, Some(HitType::Hit));
        } else {
            // last segment -> sunk
            assert_eq!(res, Some(HitType::Sunk(ShipType::Carrier)));
        }
    }

    // Verify ship recorded as sunk
    let ship = state.ships.iter().find(|s| s.ship_type == ShipType::Carrier).unwrap();
    assert!(ship.is_sunk());
}

#[test]
fn test_repeated_shot_idempotent() {
    let mut state = GameState::new([0; 16]);

    // No ships: first shot is a miss, second identical shot should return None
    let res1 = state.apply_shot(Position::new(1, 1));
    assert_eq!(res1, Some(HitType::Miss));

    // Second shot at same cell -> already shot -> None per API
    let res2 = state.apply_shot(Position::new(1, 1));
    assert_eq!(res2, None);
}

#[test]
fn test_commit_equality() {
    // Two identical states should produce identical commits; modifying one
    // should change the commit.
    let mut s1 = GameState::new([0; 16]);
    s1.place_ship(ShipType::Destroyer, Position::new(2, 2), Direction::Horizontal);

    let mut s2 = s1.clone();

    let c1 = s1.commit();
    let c2 = s2.commit();
    assert_eq!(c1, c2);

    // Mutate s2 (change pepper) and ensure commit changes.
    s2.pepper[0] = 1;
    let c3 = s2.commit();
    assert_ne!(c1, c3);
}
