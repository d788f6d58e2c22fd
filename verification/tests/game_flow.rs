use othello::ai::{AiType, MoveResult};
use othello::board::{Board, Cell, Player};
use othello::game::{
    classify_move_result, count_pieces, make_move, next_phase, GameOptions,
    MoveResultAction, Phase, PlayerOptions,
};

fn start_board() -> Board {
    Board::default()
}

#[test]
fn game_options_default_values() {
    let options = GameOptions::default();
    assert!(!options.show_effects_of_moves);
    assert!(!options.show_valid_moves);
    assert!(!options.auto_restart);
    assert!(options.pace_ai);
    assert!(options.pause_at_win);
    assert!(options.should_take_statistics);
}

#[test]
fn player_options_default_values() {
    let options = PlayerOptions::default();
    assert!(!options.ai_enabled);
    assert!(options.ai_type == AiType::Random);
    assert_eq!(options.ai_recursion_depth, 1);
}

#[test]
fn count_pieces_on_start_board() {
    let board = start_board();
    assert_eq!(count_pieces(&board), (2, 2));
}

#[test]
fn count_pieces_after_one_move() {
    let mut board = start_board();
    assert!(make_move(&mut board, Player::Black, (2, 3)));
    assert_eq!(count_pieces(&board), (4, 1));
}

#[test]
fn make_move_rejects_illegal_move_and_leaves_board_unchanged() {
    let mut board = start_board();
    let before = board.duplicate();
    assert!(!make_move(&mut board, Player::Black, (0, 0)));
    assert!(!make_move(&mut board, Player::Black, (3, 3)));
    assert!(board.same_grid(&before));
}

#[test]
fn next_phase_switches_to_opponent_when_they_can_move() {
    let mut board = start_board();
    assert!(make_move(&mut board, Player::Black, (2, 3)));
    assert!(next_phase(&board, Player::Black) == Phase::Turn(Player::White));
}

#[test]
fn next_phase_keeps_mover_when_opponent_must_pass() {
    // White owns the corner, Black sits next to it: after White's move at
    // (0, 2) Black still has nothing, while White can go on. The mover
    // keeps the turn when only the opponent is out of moves.
    let mut board = Board::empty();
    board.set(0, 0, Cell::Taken(Player::White));
    board.set(0, 1, Cell::Taken(Player::Black));
    board.set(0, 3, Cell::Taken(Player::Black));
    assert!(make_move(&mut board, Player::White, (0, 2)));
    assert!(next_phase(&board, Player::White) == Phase::Turn(Player::White));
}

#[test]
fn next_phase_reports_win_and_tie_on_double_pass() {
    let mut black_ahead = Board::empty();
    black_ahead.set(0, 0, Cell::Taken(Player::Black));
    assert!(next_phase(&black_ahead, Player::Black) == Phase::Win(Player::Black));

    let mut white_ahead = Board::empty();
    white_ahead.set(0, 0, Cell::Taken(Player::White));
    assert!(next_phase(&white_ahead, Player::White) == Phase::Win(Player::White));

    let mut even = Board::empty();
    even.set(0, 0, Cell::Taken(Player::Black));
    even.set(7, 7, Cell::Taken(Player::White));
    assert!(next_phase(&even, Player::Black) == Phase::Tie);
}

#[test]
fn stale_board_snapshot_is_discarded() {
    let board = start_board();
    let mut advanced = board.duplicate();
    assert!(make_move(&mut advanced, Player::Black, (2, 3)));
    let result = MoveResult { board, player: Player::White, next_move: (2, 4) };
    // the game moved on: the snapshot no longer matches
    let action = classify_move_result(&advanced, Player::White, &result);
    assert!(action == MoveResultAction::DiscardStale);
}

#[test]
fn mismatched_player_is_discarded() {
    let board = start_board();
    let result = MoveResult {
        board: board.duplicate(),
        player: Player::White,
        next_move: (2, 4),
    };
    let action = classify_move_result(&board, Player::Black, &result);
    assert!(action == MoveResultAction::DiscardStale);
}

#[test]
fn current_sentinel_result_disables_ai() {
    let board = start_board();
    let result = MoveResult {
        board: board.duplicate(),
        player: Player::Black,
        next_move: (8, 8),
    };
    let action = classify_move_result(&board, Player::Black, &result);
    assert!(action == MoveResultAction::DisableAi);
}

#[test]
fn current_in_range_result_is_applied() {
    let board = start_board();
    let result = MoveResult {
        board: board.duplicate(),
        player: Player::Black,
        next_move: (2, 3),
    };
    let action = classify_move_result(&board, Player::Black, &result);
    assert!(action == MoveResultAction::ApplyMove);
}
