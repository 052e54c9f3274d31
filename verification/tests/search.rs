use connect4::board::GameState;
use connect4::error::GameError;
use connect4::eval::{center_mask, evaluate, WIN_SCORE};
use connect4::history::parse_history;
use connect4::lines::{generate_win_masks, WinMasks};
use connect4::player::Player;
use connect4::search::{best_move, choose_move, negamax, MoveRequest, MoveResponse, MAX_HALF, MIN_HALF};

fn replayed(history: &str) -> GameState {
    GameState::from_history(&parse_history(history).unwrap()).unwrap()
}

fn ask(history: &str, level: u8) -> Result<MoveResponse, GameError> {
    best_move(MoveRequest { position: history.to_string(), level })
}

fn full_board_history() -> String {
    let mut history = String::new();
    for col in 0..7 {
        for row in 0..6 {
            history.push(if (row + col) % 2 == 0 { 'R' } else { 'B' });
            history.push(char::from_digit(col, 10).unwrap());
        }
    }
    history
}

#[test]
fn table_holds_every_line_of_four() {
    let masks = generate_win_masks();
    assert_eq!(masks.len(), 69);
    assert_eq!(masks[0], 2113665);
    assert_eq!(masks[23], 141845657026560);
    assert_eq!(masks[24], 15);
    assert_eq!(masks[44], 263882790666240);
    assert_eq!(masks[45], 16843009);
    assert_eq!(masks[56], 141289400041472);
    assert_eq!(masks[57], 2130440);
    assert_eq!(masks[68], 17871426027520);
    for mask in &masks {
        assert_eq!(mask.count_ones(), 4);
        assert_eq!(mask & !0x0000_fdfb_f7ef_dfbf_u64, 0);
    }
    let mut sorted = masks.clone();
    sorted.sort();
    sorted.dedup();
    assert_eq!(sorted.len(), 69);
    assert_eq!(WinMasks::new().masks(), &masks);
}

#[test]
fn centre_mask_is_column_three() {
    assert_eq!(center_mask(), 0x7e0_0000);
    assert_eq!(center_mask(), 132120576);
}

#[test]
fn empty_board_scores_zero() {
    let lines = WinMasks::new();
    let state = GameState::empty(Player::Red);
    assert_eq!(evaluate(&state, Player::Red, &lines), 0);
    assert_eq!(evaluate(&state, Player::Blue, &lines), 0);
}

#[test]
fn single_centre_piece_scores_seventeen() {
    // three for the centre column and two for each of the seven lines through the cell
    let lines = WinMasks::new();
    let state = replayed("R3");
    assert_eq!(evaluate(&state, Player::Red, &lines), 17);
    assert_eq!(evaluate(&state, Player::Blue, &lines), -17);
}

#[test]
fn blocked_lines_score_nothing() {
    let lines = WinMasks::new();
    let state = replayed("R3B3R2");
    assert_eq!(evaluate(&state, Player::Red, &lines), 22);
    assert_eq!(evaluate(&state, Player::Blue, &lines), -22);
}

#[test]
fn three_in_a_line_scores_fifty() {
    let lines = WinMasks::new();
    let state = replayed("R0R1R2");
    assert_eq!(evaluate(&state, Player::Red, &lines), 74);
    assert_eq!(evaluate(&state, Player::Blue, &lines), -74);
}

#[test]
fn won_position_scores_the_win_constant() {
    let lines = WinMasks::new();
    let state = replayed("R0B6R1B6R2B5R3");
    assert_eq!(WIN_SCORE, 1_000_000);
    assert_eq!(evaluate(&state, Player::Red, &lines), 1_000_000);
    assert_eq!(evaluate(&state, Player::Blue, &lines), -1_000_000);
}

#[test]
fn negamax_at_depth_zero_is_the_evaluator() {
    let lines = WinMasks::new();
    let state = replayed("R3B3R2");
    assert_eq!(negamax(&state, 0, MIN_HALF, MAX_HALF, Player::Blue, &lines), -22);
    assert_eq!(negamax(&state, 0, MIN_HALF, MAX_HALF, Player::Red, &lines), 22);
}

#[test]
fn negamax_from_the_empty_board() {
    let lines = WinMasks::new();
    let state = GameState::empty(Player::Red);
    assert_eq!(MIN_HALF, i32::MIN / 2);
    assert_eq!(MAX_HALF, i32::MAX / 2);
    assert_eq!(negamax(&state, 0, MIN_HALF, MAX_HALF, Player::Red, &lines), 0);
    assert_eq!(negamax(&state, 1, MIN_HALF, MAX_HALF, Player::Red, &lines), 17);
    assert_eq!(negamax(&state, 2, MIN_HALF, MAX_HALF, Player::Red, &lines), -6);
    assert_eq!(negamax(&state, 3, MIN_HALF, MAX_HALF, Player::Red, &lines), 22);
}

#[test]
fn negamax_rewards_the_faster_win() {
    let lines = WinMasks::new();
    let state = replayed("R0B1R0B1R0B1");
    assert_eq!(negamax(&state, 1, MIN_HALF, MAX_HALF, Player::Red, &lines), 1_000_000);
    assert_eq!(negamax(&state, 2, MIN_HALF, MAX_HALF, Player::Red, &lines), 1_000_001);
    assert_eq!(negamax(&state, 2, 5, 10, Player::Red, &lines), 1_000_001);
}

#[test]
fn negamax_stops_at_the_upper_end_of_the_window() {
    let lines = WinMasks::new();
    let state = replayed("R3B3R2");
    assert_eq!(negamax(&state, 2, MIN_HALF, MAX_HALF, Player::Blue, &lines), -34);
    assert_eq!(negamax(&state, 2, -50, 50, Player::Blue, &lines), -34);
    assert_eq!(negamax(&state, 3, -5, 5, Player::Blue, &lines), 5);
}

#[test]
fn root_prefers_the_centre_on_the_empty_board() {
    let lines = WinMasks::new();
    let state = GameState::empty(Player::Red);
    for depth in [0, 1, 2, 4] {
        assert_eq!(choose_move(&state, depth, &lines).unwrap(), 3);
    }
}

#[test]
fn root_skips_a_full_centre() {
    let lines = WinMasks::new();
    let state = replayed("R3B3R3B3R3B3");
    assert_eq!(choose_move(&state, 3, &lines).unwrap(), 2);
}

#[test]
fn root_takes_the_win_at_every_depth() {
    let lines = WinMasks::new();
    let state = replayed("R0B1R0B1R0B1");
    for depth in [1, 2, 3] {
        assert_eq!(choose_move(&state, depth, &lines).unwrap(), 0);
    }
}

#[test]
fn root_fills_the_last_cell() {
    let history = full_board_history();
    let response = ask(&history[..history.len() - 2], 3).unwrap();
    assert_eq!(response, MoveResponse { column: 6 });
}

#[test]
fn full_board_has_no_move() {
    let lines = WinMasks::new();
    let history = full_board_history();
    assert!(matches!(ask(&history, 1), Err(GameError::NoMoves)));
    assert!(matches!(ask(&history, 15), Err(GameError::NoMoves)));
    assert!(matches!(choose_move(&replayed(&history), 4, &lines), Err(GameError::NoMoves)));
}

#[test]
fn depth_outside_one_to_fifteen_fails() {
    let full = full_board_history();
    for history in ["", "R0B0R1B1R2", "R7", "garbage", "R0B0R0B0R0B0R0", full.as_str()] {
        for level in [0u8, 16, 17, 100, 255] {
            match ask(history, level) {
                Err(GameError::DepthOutOfRange(found)) => assert_eq!(found, level),
                other => panic!("expected a depth error, got {:?}", other),
            }
        }
    }
}

#[test]
fn depths_one_and_fifteen_are_accepted() {
    assert_eq!(ask("", 1).unwrap().column, 3);
    let history = full_board_history();
    assert_eq!(ask(&history[..history.len() - 2], 15).unwrap().column, 6);
}

#[test]
fn empty_history_at_depth_zero_fails() {
    assert!(matches!(ask("", 0), Err(GameError::DepthOutOfRange(0))));
}

#[test]
fn malformed_history_fails_before_the_search() {
    match ask("R7", 5) {
        Err(GameError::ParseMove { position, reason }) => {
            assert_eq!(position, 1);
            assert_eq!(reason, "column must be 0-6");
        }
        other => panic!("expected a parse error, got {:?}", other),
    }
}

#[test]
fn full_column_in_a_history_fails_the_request() {
    for rest in ["", "B1", "B1R2B3R4"] {
        let history = format!("R0B0R0B0R0B0R0{}", rest);
        assert!(matches!(ask(&history, 3), Err(GameError::ColumnFull { column: 0 })), "{}", history);
    }
}

#[test]
fn malformed_tail_hides_a_full_column() {
    assert!(matches!(ask("R0B0R0B0R0B0R0X", 3), Err(GameError::ParseMove { position: 14, .. })));
}

#[test]
fn blank_history_is_the_empty_board() {
    assert_eq!(ask("  \n", 2).unwrap().column, 3);
}

#[test]
fn same_request_gives_the_same_answer() {
    for (history, level) in [("R0B0R1B1R2", 5u8), ("B0R3B1R4B2R5", 4), ("", 3), ("R3B3R2", 6)] {
        let first = ask(history, level).unwrap();
        let second = ask(history, level).unwrap();
        assert_eq!(first, second);
    }
    assert!(matches!(ask("R7", 3), Err(GameError::ParseMove { position: 1, .. })));
    assert!(matches!(ask("R7", 3), Err(GameError::ParseMove { position: 1, .. })));
}

#[test]
fn blocks_the_open_three_at_depth_five() {
    assert_eq!(ask("R0B0R1B1R2", 5).unwrap().column, 3);
}

#[test]
fn completes_the_row_at_depth_eight() {
    assert_eq!(ask("B0R3B1R4B2R5", 8).unwrap().column, 6);
}

#[test]
fn answers_within_the_board() {
    assert_eq!(ask("R4B4R5B5R6", 4).unwrap().column, 3);
}

#[test]
fn shared_table_gives_the_same_answers() {
    let lines = WinMasks::new();
    for (history, level) in [("R0B0R1B1R2", 5u8), ("B0R3B1R4B2R5", 4), ("", 3), ("B0R1B0R1B0R1", 6)] {
        let request = MoveRequest { position: history.to_string(), level };
        let shared = connect4::search::best_move_with(request.clone(), &lines).unwrap();
        assert_eq!(shared, best_move(request).unwrap());
    }
    let bad = MoveRequest { position: "R7".to_string(), level: 0 };
    assert!(matches!(
        connect4::search::best_move_with(bad, &lines),
        Err(GameError::DepthOutOfRange(0))
    ));
}

fn plain_value(state: &GameState, depth: usize, player: Player, lines: &WinMasks) -> i32 {
    if depth == 0 || state.is_full() {
        return evaluate(state, player, lines);
    }
    let mut best = MIN_HALF;
    for col in state.legal_moves() {
        let mut child = *state;
        let outcome = child.play(col).unwrap();
        let score = if outcome.won {
            WIN_SCORE - 1 + depth as i32
        } else if child.is_full() {
            0
        } else {
            -plain_value(&child, depth - 1, player.opponent(), lines)
        };
        best = best.max(score);
    }
    best
}

fn plain_choice(state: &GameState, depth: usize, lines: &WinMasks) -> Option<usize> {
    let mut best: Option<(usize, i32)> = None;
    for col in state.legal_moves() {
        let mut child = *state;
        let outcome = child.play(col).unwrap();
        let score = if outcome.won {
            WIN_SCORE - 1
        } else if child.is_full() {
            0
        } else {
            -plain_value(&child, depth.saturating_sub(1), state.to_move().opponent(), lines)
        };
        if best.map_or(true, |(_, top)| score > top) {
            best = Some((col, score));
        }
    }
    best.map(|(col, _)| col)
}

#[test]
fn pruning_keeps_the_choice_of_the_full_search() {
    let lines = WinMasks::new();
    for history in [
        "",
        "R3",
        "R3B3R2",
        "R0B0R1B1R2",
        "B0R3B1R4B2R5",
        "B0R1B0R1B0R1",
        "R3B3R3B3R3B3",
        "B3R3B2R4B3R3B3R4B2R2B1R0B5",
        "R0R1R2B6B6B6",
    ] {
        let state = replayed(history);
        for depth in 0..5 {
            assert_eq!(
                choose_move(&state, depth, &lines).ok(),
                plain_choice(&state, depth, &lines),
                "{} at depth {}",
                history,
                depth
            );
        }
    }
}

#[test]
fn pruned_value_is_exact_in_an_open_window() {
    let lines = WinMasks::new();
    for history in ["", "R3B3R2", "R0B0R1B1R2", "B0R1B0R1B0R1"] {
        let state = replayed(history);
        for depth in 0..5 {
            assert_eq!(
                negamax(&state, depth, MIN_HALF, MAX_HALF, state.to_move(), &lines),
                plain_value(&state, depth, state.to_move(), &lines),
                "{} at depth {}",
                history,
                depth
            );
        }
    }
}
