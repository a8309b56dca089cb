//! Verified core of a commit-and-prove Battleship game.
//!
//! The crate is organised leaves-first: the board model and its
//! deterministic state machine, the canonical byte codec and the
//! commitment digest over it, the proof-journal layout with its
//! verification predicates, the authenticated session envelope, and the
//! two-peer round protocol.

mod board;
mod codec;
mod crypto;
mod journal;
mod protocol;
mod render;
mod session;

pub use board::BOARD_SIZE;
pub use board::CellState;
pub use board::Direction;
pub use board::GameState;
pub use board::HitType;
pub use board::Position;
pub use board::Ship;
pub use board::ShipType;
pub use board::can_place_on;
pub use board::cell_at;
pub use board::fleet_ok;
pub use board::first_cover;
pub use board::full_mask;
pub use board::has_ship_type;
pub use board::hit_bit;
pub use board::hits_marked;
pub use board::lemma_first_cover_bounds;
pub use board::lemma_first_cover_covers;
pub use board::lemma_no_hits_marked;
pub use board::lemma_overlap_ignores_hits;
pub use board::lemma_overlap_symmetric;
pub use board::lemma_place_all_appends;
pub use board::lemma_place_all_well_formed;
pub use board::lemma_place_preserves_fleet_ok;
pub use board::lemma_place_preserves_hits_marked;
pub use board::lemma_shot_preserves_invariant;
pub use board::lemma_sunk_characterisation;
pub use board::place_all_ok;
pub use board::place_all_ships;
pub use board::ship_covers;
pub use board::ship_full;
pub use board::ship_in_bounds;
pub use board::ship_in_bounds_exec;
pub use board::ship_offset;
pub use board::ship_size;
pub use board::ship_type_index;
pub use board::ships_overlap;
pub use board::ships_overlap_exec;
pub use board::shot_transition;
pub use board::spec_can_place;
pub use board::spec_in_bounds;
pub use board::spec_shot_outcome;
pub use board::spec_shot_rejected;
pub use board::spec_step;
pub use board::spec_well_formed;
pub use codec::cell_tag;
pub use codec::decode_game_state;
pub use codec::dir_tag;
pub use codec::encode_game_state;
pub use codec::grid_bytes;
pub use codec::lemma_state_bytes_determined;
pub use codec::lemma_state_bytes_injective;
pub use codec::lemma_state_bytes_wf;
pub use codec::ship_bytes;
pub use codec::ships_bytes;
pub use codec::state_bytes;
pub use codec::type_tag;
pub use codec::u32_le;
pub use codec::u64_le;
pub use codec::wf_state_bytes;
pub use crypto::Digest;
pub use crypto::base64_of;
pub use crypto::check_auth_token;
pub use crypto::derive_match_secret;
pub use crypto::hmac_sha256_of;
pub use crypto::lemma_commit_deterministic;
pub use crypto::lemma_tampered_token_rejected;
pub use crypto::make_auth_token;
pub use crypto::sha256_of;
pub use crypto::token_accepted;
pub use crypto::token_of;
pub use journal::ProofError;
pub use journal::RoundCommit;
pub use journal::commit_new_at;
pub use journal::commit_old_at;
pub use journal::commit_shot_at;
pub use journal::encode_journal;
pub use journal::extract_round_commits;
pub use journal::first_shot_from;
pub use journal::guest_step;
pub use journal::guest_trace;
pub use journal::hit_bytes;
pub use journal::journal_bytes;
pub use journal::journal_count;
pub use journal::lemma_commits_bytes_len;
pub use journal::lemma_fleet_len;
pub use journal::lemma_journal_bytes_wf;
pub use journal::lemma_round_commit_bytes_injective;
pub use journal::process_shots;
pub use journal::read_round_commit;
pub use journal::round_commit_bytes;
pub use journal::verify_remote_round_proof;
pub use journal::verify_shot_result_for_shooter;
pub use journal::wf_commit_at;
pub use journal::wf_journal_bytes;
pub use protocol::GameCoordinator;
pub use protocol::GamePhase;
pub use protocol::Turn;
pub use protocol::all_observed;
pub use protocol::canonical_columns;
pub use protocol::place_opponent_deterministic;
pub use protocol::spec_turn_after_shot;
pub use render::board_str;
pub use render::cell_char;
pub use render::display_board_str;
pub use render::display_dual_str;
pub use render::dual_str;
pub use render::spec_covered;
pub use session::Envelope;
pub use session::GameMessage;
pub use session::ProofData;
pub use session::Session;
pub use session::SessionError;
pub use session::contiguous_from;
pub use session::decode_proof_data;
pub use session::dh_derive_secret;
pub use session::dh_generate_keypair;
pub use session::encode_proof_data;
pub use session::lemma_proof_data_bytes_injective;
pub use session::lemma_proof_data_bytes_wf;
pub use session::lemma_seq_numbers_contiguous;
pub use session::proof_data_bytes;
pub use session::wf_proof_data_bytes;
