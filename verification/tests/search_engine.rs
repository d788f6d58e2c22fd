use othello::ai::{
    calculate_best_move, calculate_heuristic, calculate_weighted_piece_positions,
    compute_move_response, get_board_after_move, negamax, negamax_exhaustive, AiType,
    MoveRequest,
};
use othello::board::{Board, Cell, Player};
use othello::common::CellList;
use othello::referee::Referee;

fn start_board() -> Board {
    Board::default()
}

fn valid_moves_of(board: &Board, player: Player) -> CellList {
    let referee = Referee::default();
    let mut valid_moves = CellList::new();
    referee.find_all_valid_moves(board, player, &mut valid_moves);
    valid_moves
}

#[test]
fn heuristic_on_start_board() {
    // each side owns two centre cells of weight 6
    let board = start_board();
    assert_eq!(calculate_heuristic(board.duplicate(), Player::Black), 12);
    assert_eq!(calculate_heuristic(board, Player::White), 12);
}

#[test]
fn heuristic_weights_corner_highest() {
    let mut board = Board::empty();
    board.set(0, 0, Cell::Taken(Player::Black)); // corner: 7
    board.set(1, 1, Cell::Taken(Player::Black)); // next to corner: 1
    board.set(0, 1, Cell::Taken(Player::White)); // not black's
    assert_eq!(calculate_weighted_piece_positions(board.duplicate(), Player::Black), 8);
    assert_eq!(calculate_weighted_piece_positions(board, Player::White), 2);
}

#[test]
fn heuristic_of_empty_board_is_zero() {
    let board = Board::empty();
    assert_eq!(calculate_heuristic(board.duplicate(), Player::Black), 0);
    assert_eq!(calculate_heuristic(board, Player::White), 0);
}

#[test]
fn get_board_after_move_flips_the_sandwich() {
    let board = start_board();
    let after = get_board_after_move(&board, Player::Black, (2, 3));
    assert!(after.get(2, 3) == Cell::Taken(Player::Black));
    assert!(after.get(3, 3) == Cell::Taken(Player::Black));
    assert!(after.get(3, 4) == Cell::Taken(Player::Black));
    assert!(after.get(4, 3) == Cell::Taken(Player::Black));
    assert!(after.get(4, 4) == Cell::Taken(Player::White));
    // untouched cells stay untouched
    assert!(after.get(0, 0) == Cell::Empty);
    assert!(after.get(2, 4) == Cell::Empty);
}

#[test]
fn negamax_at_depth_zero_is_the_heuristic() {
    let board = start_board();
    let score = negamax(board.duplicate(), Player::Black, 0, false, None, None);
    assert_eq!(score, calculate_heuristic(board, Player::Black));
}

#[test]
fn pruned_search_equals_exhaustive_search_on_values() {
    // with an unbounded window, alpha-beta returns the exact value
    let board = start_board();
    for depth in 0..5 {
        for player in [Player::Black, Player::White] {
            let pruned = negamax(board.duplicate(), player, depth, false, None, None);
            let exhaustive = negamax_exhaustive(board.duplicate(), player, depth, false);
            assert_eq!(pruned, exhaustive);
        }
    }
}

#[test]
fn pruned_choice_equals_exhaustive_choice() {
    // the move picked by pruned search equals the first-seen argmax of the
    // exhaustive per-candidate values, on the same candidate order
    let mut board = start_board();
    board.set(2, 2, Cell::Taken(Player::White));
    board.set(2, 3, Cell::Taken(Player::Black));
    let depth: u32 = 3;
    for player in [Player::Black, Player::White] {
        let candidates = valid_moves_of(&board, player);
        if candidates.count() == 0 {
            continue;
        }
        let mut best_val: Option<i32> = None;
        let mut best_mv = candidates.get(0);
        let mut i = 0;
        while i < candidates.count() {
            let child = get_board_after_move(&board, player, candidates.get(i));
            let val = -negamax_exhaustive(child, player.opponent(), depth - 1, false);
            if best_val.is_none() || val > best_val.unwrap() {
                best_val = Some(val);
                best_mv = candidates.get(i);
            }
            i += 1;
        }
        let chosen = calculate_best_move(board.duplicate(), candidates, player, depth);
        assert_eq!(chosen, best_mv);
    }
}

#[test]
fn negamax_is_zero_for_both_players_on_empty_board() {
    // with no pieces there is never a move, and the weighted sums vanish:
    // the one configuration where the sign symmetry holds exactly
    let board = Board::empty();
    for depth in 0..4 {
        let black = negamax(board.duplicate(), Player::Black, depth, false, None, None);
        let white = negamax(board.duplicate(), Player::White, depth, false, None, None);
        assert_eq!(black, 0);
        assert_eq!(white, -black);
    }
}

#[test]
fn negamax_color_inversion_symmetry() {
    // inverting every piece and the player to move leaves the value as is
    let board = start_board();
    let mut flipped = Board::empty();
    for row in 0..8 {
        for col in 0..8 {
            let cell = match board.get(row, col) {
                Cell::Empty => Cell::Empty,
                Cell::Taken(p) => Cell::Taken(p.opponent()),
            };
            flipped.set(row, col, cell);
        }
    }
    for depth in 0..4 {
        let original = negamax(board.duplicate(), Player::Black, depth, false, None, None);
        let mirrored = negamax(flipped.duplicate(), Player::White, depth, false, None, None);
        assert_eq!(original, mirrored);
    }
}

/// A board where Black has no legal move but White does: White owns the
/// corner, Black sits next to it, and White can close the sandwich.
fn forced_pass_board() -> Board {
    let mut board = Board::empty();
    board.set(0, 0, Cell::Taken(Player::White));
    board.set(0, 1, Cell::Taken(Player::Black));
    board
}

#[test]
fn forced_pass_recurses_instead_of_terminating() {
    let board = forced_pass_board();
    let referee = Referee::default();
    let mut valid_moves = CellList::new();
    assert!(!referee.find_all_valid_moves(&board, Player::Black, &mut valid_moves));
    assert_eq!(valid_moves.count(), 0);
    assert!(referee.find_all_valid_moves(&board, Player::White, &mut valid_moves));
    assert_eq!(valid_moves.get(0), (0, 2));
    // Black to move passes: the search hands the board to White one ply
    // deeper with the pass flag set, instead of scoring the game as over
    let passed = negamax(board.duplicate(), Player::Black, 3, false, None, None);
    let direct = negamax(board.duplicate(), Player::White, 2, true, None, None);
    assert_eq!(passed, direct);
    // ... and the result differs from treating the position as terminal
    let terminal = calculate_heuristic(board.duplicate(), Player::Black);
    assert_ne!(passed, terminal);
}

#[test]
fn compute_move_response_echoes_request_and_picks_first_for_random() {
    let board = start_board();
    let request = MoveRequest {
        board: board.duplicate(),
        player: Player::Black,
        pace_response: false,
        algorithm_choice: AiType::Random,
        recursion_depth: 1,
    };
    let result = compute_move_response(&request);
    assert!(result.board.same_grid(&board));
    assert!(result.player == Player::Black);
    assert_eq!(result.next_move, (2, 3));
}

#[test]
fn compute_move_response_minimax_picks_search_choice() {
    let board = start_board();
    let request = MoveRequest {
        board: board.duplicate(),
        player: Player::Black,
        pace_response: false,
        algorithm_choice: AiType::Minimax,
        recursion_depth: 1,
    };
    let result = compute_move_response(&request);
    // all four openings are equally valued; the first one wins the tie
    assert_eq!(result.next_move, (2, 3));
}

#[test]
fn compute_move_response_answers_sentinel_without_moves() {
    let board = forced_pass_board();
    let request = MoveRequest {
        board: board.duplicate(),
        player: Player::Black,
        pace_response: true,
        algorithm_choice: AiType::Minimax,
        recursion_depth: 4,
    };
    let result = compute_move_response(&request);
    assert_eq!(result.next_move, (8, 8));
    assert!(result.board.same_grid(&board));
    assert!(result.player == Player::Black);
}
