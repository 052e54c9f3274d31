use connect4::board::{GameState, MoveOutcome, TypedMove, MOVE_ORDER};
use connect4::error::GameError;
use connect4::geometry::bit_for;
use connect4::history::parse_history;
use connect4::player::Player;
use connect4::win::has_won;

fn replayed(history: &str) -> GameState {
    GameState::from_history(&parse_history(history).unwrap()).unwrap()
}

fn full_board_history() -> String {
    let mut history = String::new();
    for col in 0..7 {
        for row in 0..6 {
            history.push(if (row + col) % 2 == 0 { 'R' } else { 'B' });
            history.push(char::from_digit(col, 10).unwrap());
        }
    }
    history
}

#[test]
fn opponent_swaps_the_players() {
    assert_eq!(Player::Red.opponent(), Player::Blue);
    assert_eq!(Player::Blue.opponent(), Player::Red);
    assert_eq!(Player::Red.opponent().opponent(), Player::Red);
    assert_eq!(Player::Red.idx(), 0);
    assert_eq!(Player::Blue.idx(), 1);
}

#[test]
fn empty_board_has_nothing_on_it() {
    let state = GameState::empty(Player::Blue);
    assert_eq!(state.bits(Player::Red), 0);
    assert_eq!(state.bits(Player::Blue), 0);
    assert_eq!(state.moves_played(), 0);
    assert_eq!(state.to_move(), Player::Blue);
    assert!(!state.is_full());
    for col in 0..7 {
        assert_eq!(state.height(col), 0);
    }
}

#[test]
fn empty_history_gives_red_the_move() {
    let state = GameState::from_history(&[]).unwrap();
    assert_eq!(state, GameState::empty(Player::Red));
    assert_eq!(state.to_move(), Player::Red);
}

#[test]
fn replay_counts_every_move() {
    for (history, count, to_move) in [
        ("", 0, Player::Red),
        ("R3", 1, Player::Blue),
        ("B3", 1, Player::Red),
        ("R0R1R2", 3, Player::Blue),
        ("B3R3B2R4B3R3B3R4B2R2B1R0B5", 13, Player::Red),
    ] {
        let state = replayed(history);
        assert_eq!(state.moves_played(), count);
        assert_eq!(state.to_move(), to_move);
    }
}

#[test]
fn replay_places_for_the_named_player() {
    let state = replayed("R3R3B3");
    assert_eq!(state.bits(Player::Red), (1 << 21) | (1 << 22));
    assert_eq!(state.bits(Player::Blue), 1 << 23);
    assert_eq!(state.height(3), 3);
    assert_eq!(state.bits(Player::Red) & state.bits(Player::Blue), 0);
}

#[test]
fn pieces_stack_from_the_bottom() {
    let state = replayed("R0B0R6");
    assert_eq!(state.bits(Player::Red), 1 | (1 << 42));
    assert_eq!(state.bits(Player::Blue), 1 << 1);
    assert_eq!(state.bits(Player::Red), bit_for(0, 0) | bit_for(6, 0));
}

#[test]
fn seventh_piece_in_a_column_is_refused() {
    let moves = parse_history("R0B0R0B0R0B0R0").unwrap();
    let res = GameState::from_history(&moves);
    assert!(matches!(res, Err(GameError::ColumnFull { column: 0 })));
}

#[test]
fn full_column_decides_whatever_follows() {
    for rest in ["", "B1", "B1R2B3", "R0R0R0", "B6B6B6B6B6B6B6"] {
        let history = format!("R4B4R4B4R4B4B4{}", rest);
        let moves = parse_history(&history).unwrap();
        let res = GameState::from_history(&moves);
        assert!(matches!(res, Err(GameError::ColumnFull { column: 4 })), "{}", history);
    }
}

#[test]
fn column_beyond_the_board_is_refused() {
    let moves = [TypedMove { player: Player::Red, column: 7 }];
    let res = GameState::from_history(&moves);
    assert!(matches!(res, Err(GameError::ColumnOutOfBounds { column: 7 })));
    let moves = [
        TypedMove { player: Player::Red, column: 0 },
        TypedMove { player: Player::Blue, column: 100 },
        TypedMove { player: Player::Red, column: 9 },
    ];
    let res = GameState::from_history(&moves);
    assert!(matches!(res, Err(GameError::ColumnOutOfBounds { column: 100 })));
}

#[test]
fn force_play_reports_what_it_did() {
    let mut state = GameState::empty(Player::Red);
    let outcome = state.force_play(Player::Blue, 2).unwrap();
    assert_eq!(outcome, MoveOutcome { player: Player::Blue, column: 2, won: false });
    assert_eq!(state.bits(Player::Blue), 1 << 14);
    assert_eq!(state.to_move(), Player::Red);
    assert_eq!(state.moves_played(), 1);
    assert_eq!(state.height(2), 1);
}

#[test]
fn force_play_leaves_the_state_alone_on_error() {
    let mut state = replayed("R0B0R0B0R0B0");
    let before = state;
    assert!(matches!(state.force_play(Player::Red, 0), Err(GameError::ColumnFull { column: 0 })));
    assert_eq!(state, before);
    assert!(matches!(
        state.force_play(Player::Red, 7),
        Err(GameError::ColumnOutOfBounds { column: 7 })
    ));
    assert_eq!(state, before);
}

#[test]
fn play_moves_for_the_side_to_move() {
    let mut state = GameState::empty(Player::Blue);
    let first = state.play(3).unwrap();
    assert_eq!(first, MoveOutcome { player: Player::Blue, column: 3, won: false });
    let second = state.play(3).unwrap();
    assert_eq!(second, MoveOutcome { player: Player::Red, column: 3, won: false });
    assert_eq!(state.bits(Player::Blue), 1 << 21);
    assert_eq!(state.bits(Player::Red), 1 << 22);
}

#[test]
fn fourth_piece_in_a_row_is_reported_as_won() {
    let mut state = replayed("R0B0R1B1R2B2");
    let outcome = state.play(3).unwrap();
    assert_eq!(outcome, MoveOutcome { player: Player::Red, column: 3, won: true });
}

#[test]
fn legal_moves_start_at_the_centre() {
    assert_eq!(MOVE_ORDER, [3, 2, 4, 1, 5, 0, 6]);
    assert_eq!(GameState::empty(Player::Red).legal_moves(), vec![3, 2, 4, 1, 5, 0, 6]);
}

#[test]
fn full_columns_are_not_legal() {
    let state = replayed("R3B3R3B3R3B3");
    assert_eq!(state.legal_moves(), vec![2, 4, 1, 5, 0, 6]);
    let state = replayed("R3B3R3B3R3B3R0B0R0B0R0B0");
    assert_eq!(state.legal_moves(), vec![2, 4, 1, 5, 6]);
}

#[test]
fn full_board_has_no_legal_move() {
    let state = replayed(&full_board_history());
    assert_eq!(state.moves_played(), 42);
    assert!(state.is_full());
    assert!(state.legal_moves().is_empty());
    assert_eq!(state.bits(Player::Red) | state.bits(Player::Blue), 0x0000_fdfb_f7ef_dfbf);
    assert_eq!(state.bits(Player::Red) & state.bits(Player::Blue), 0);
}

#[test]
fn board_with_one_cell_left_is_not_full() {
    let history = full_board_history();
    let state = replayed(&history[..history.len() - 2]);
    assert_eq!(state.moves_played(), 41);
    assert!(!state.is_full());
    assert_eq!(state.legal_moves(), vec![6]);
}

#[test]
fn win_detector_sees_all_four_directions() {
    // up a column
    assert!(has_won(0b1111));
    assert!(has_won(0b111100));
    // along a row
    assert!(has_won(bit_for(0, 0) | bit_for(1, 0) | bit_for(2, 0) | bit_for(3, 0)));
    assert!(has_won(bit_for(3, 5) | bit_for(4, 5) | bit_for(5, 5) | bit_for(6, 5)));
    // up a diagonal
    assert!(has_won(bit_for(0, 0) | bit_for(1, 1) | bit_for(2, 2) | bit_for(3, 3)));
    assert!(has_won(bit_for(3, 2) | bit_for(4, 3) | bit_for(5, 4) | bit_for(6, 5)));
    // down a diagonal
    assert!(has_won(bit_for(0, 3) | bit_for(1, 2) | bit_for(2, 1) | bit_for(3, 0)));
    assert!(has_won(bit_for(3, 5) | bit_for(4, 4) | bit_for(5, 3) | bit_for(6, 2)));
}

#[test]
fn win_detector_wants_four_without_a_gap() {
    assert!(!has_won(0));
    assert!(!has_won(0b111));
    assert!(!has_won(0b11011));
    assert!(!has_won(bit_for(0, 0) | bit_for(1, 0) | bit_for(2, 0) | bit_for(4, 0)));
    assert!(!has_won(bit_for(0, 0) | bit_for(1, 1) | bit_for(2, 2) | bit_for(3, 4)));
}

#[test]
fn win_detector_does_not_wrap_into_the_next_column() {
    // the three top cells of column 0 and the bottom cell of column 1
    assert!(!has_won(bit_for(0, 3) | bit_for(0, 4) | bit_for(0, 5) | bit_for(1, 0)));
    // a falling diagonal that would leave the board at the bottom
    assert!(!has_won(bit_for(0, 2) | bit_for(1, 1) | bit_for(2, 0) | bit_for(2, 5)));
    // a rising diagonal that would leave the board at the top
    assert!(!has_won(bit_for(0, 3) | bit_for(1, 4) | bit_for(2, 5) | bit_for(4, 0)));
}

#[test]
fn win_detector_depends_on_the_mask_alone() {
    let one = replayed("R0B6R1B6R2B5R3");
    let other = replayed("R3B5R2B6R1B6R0");
    assert_eq!(one.bits(Player::Red), other.bits(Player::Red));
    assert!(has_won(one.bits(Player::Red)));
    assert!(has_won(other.bits(Player::Red)));
    assert!(!has_won(one.bits(Player::Blue)));
}

#[test]
fn bit_for_packs_seven_bits_per_column() {
    assert_eq!(bit_for(0, 0), 1);
    assert_eq!(bit_for(0, 5), 1 << 5);
    assert_eq!(bit_for(1, 0), 1 << 7);
    assert_eq!(bit_for(2, 3), 1 << 17);
    assert_eq!(bit_for(6, 5), 1 << 47);
}
