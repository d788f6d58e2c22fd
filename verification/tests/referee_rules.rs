use othello::board::{Board, Cell, Player};
use othello::common::CellList;
use othello::referee::{Outcome, Referee};

fn start_board() -> Board {
    Board::default()
}

/// Helper: collect the legal moves of `player` as a vector.
fn legal_moves_of(board: &Board, player: Player) -> Vec<(usize, usize)> {
    let referee = Referee::default();
    let mut valid_moves = CellList::new();
    referee.find_all_valid_moves(board, player, &mut valid_moves);
    let mut out: Vec<(usize, usize)> = Vec::new();
    let mut i = 0;
    while i < valid_moves.count() {
        out.push(valid_moves.get(i));
        i += 1;
    }
    out
}

#[test]
fn opening_position_black_has_four_moves() {
    let board = start_board();
    let moves = legal_moves_of(&board, Player::Black);
    assert_eq!(moves.len(), 4);
    assert_eq!(moves, vec![(2, 3), (3, 2), (4, 5), (5, 4)]);
}

#[test]
fn opening_position_white_has_four_moves() {
    let board = start_board();
    let moves = legal_moves_of(&board, Player::White);
    assert_eq!(moves.len(), 4);
    assert_eq!(moves, vec![(2, 4), (3, 5), (4, 2), (5, 3)]);
}

#[test]
fn legal_moves_agree_with_flip_sets() {
    // The two rule queries agree exactly on every cell, for both players:
    // a cell is listed among the valid moves iff it is empty and its flip
    // set is legal and non-empty.
    let mut board = start_board();
    // add some texture beyond the opening
    board.set(2, 2, Cell::Taken(Player::White));
    board.set(5, 5, Cell::Taken(Player::Black));
    let referee = Referee::default();
    for player in [Player::Black, Player::White] {
        let moves = legal_moves_of(&board, player);
        for row in 0..8 {
            for col in 0..8 {
                let mut flips = CellList::new();
                let legal = referee.find_flip_cells_for_move(&board, player, (row, col), &mut flips);
                assert_eq!(legal, moves.contains(&(row, col)));
                if legal {
                    assert!(board.get(row, col) == Cell::Empty);
                    assert!(flips.count() > 0);
                } else {
                    assert_eq!(flips.count(), 0);
                }
            }
        }
    }
}

fn inverted(board: &Board) -> Board {
    let mut other = Board::empty();
    for row in 0..8 {
        for col in 0..8 {
            let cell = match board.get(row, col) {
                Cell::Empty => Cell::Empty,
                Cell::Taken(p) => Cell::Taken(p.opponent()),
            };
            other.set(row, col, cell);
        }
    }
    other
}

#[test]
fn flip_set_symmetric_under_color_inversion() {
    // Swapping every piece's colour and the queried player yields the same
    // flip-cell coordinates on every cell.
    let mut board = start_board();
    board.set(2, 3, Cell::Taken(Player::Black));
    board.set(2, 4, Cell::Taken(Player::White));
    let flipped = inverted(&board);
    let referee = Referee::default();
    for player in [Player::Black, Player::White] {
        for row in 0..8 {
            for col in 0..8 {
                let mut flips_a = CellList::new();
                let mut flips_b = CellList::new();
                let legal_a =
                    referee.find_flip_cells_for_move(&board, player, (row, col), &mut flips_a);
                let legal_b = referee.find_flip_cells_for_move(
                    &flipped, player.opponent(), (row, col), &mut flips_b);
                assert_eq!(legal_a, legal_b);
                assert_eq!(flips_a.count(), flips_b.count());
                for j in 0..flips_a.count() {
                    assert_eq!(flips_a.get(j), flips_b.get(j));
                }
            }
        }
    }
}

#[test]
fn apply_move_changes_exactly_move_and_flip_cells() {
    // Full-board re-scan after apply: the move cell and every flip cell are
    // the mover's, nothing else changed.
    let board = start_board();
    let referee = Referee::default();
    let mut flips = CellList::new();
    let legal = referee.find_flip_cells_for_move(&board, Player::Black, (2, 3), &mut flips);
    assert!(legal);
    assert_eq!(flips.count(), 1);
    assert_eq!(flips.get(0), (3, 3));

    let mut after = board.duplicate();
    Referee::apply_move(&mut after, Player::Black, (2, 3), &flips);
    for row in 0..8 {
        for col in 0..8 {
            if (row, col) == (2, 3) || (row, col) == (3, 3) {
                assert!(after.get(row, col) == Cell::Taken(Player::Black));
            } else {
                assert!(after.get(row, col) == board.get(row, col));
            }
        }
    }
}

#[test]
fn move_onto_occupied_cell_is_illegal() {
    let board = start_board();
    let referee = Referee::default();
    let mut flips = CellList::new();
    assert!(!referee.find_flip_cells_for_move(&board, Player::Black, (3, 3), &mut flips));
    assert_eq!(flips.count(), 0);
}

#[test]
fn direction_without_sandwich_contributes_nothing() {
    // A lone opposing piece against the edge never closes a sandwich.
    let mut board = Board::empty();
    board.set(0, 0, Cell::Taken(Player::White));
    let referee = Referee::default();
    let mut flips = CellList::new();
    assert!(!referee.find_flip_cells_for_move(&board, Player::Black, (0, 1), &mut flips));
    assert_eq!(flips.count(), 0);
}

#[test]
fn check_outcome_black_wins_on_higher_count() {
    let mut board = Board::empty();
    board.set(0, 0, Cell::Taken(Player::Black));
    assert!(Referee::check_outcome(&board) == Outcome::Won(Player::Black));
}

#[test]
fn check_outcome_white_wins_on_higher_count() {
    let mut board = Board::empty();
    board.set(0, 0, Cell::Taken(Player::White));
    assert!(Referee::check_outcome(&board) == Outcome::Won(Player::White));
}

#[test]
fn check_outcome_ties_on_equal_counts() {
    let mut board = Board::empty();
    board.set(0, 0, Cell::Taken(Player::Black));
    board.set(7, 7, Cell::Taken(Player::White));
    assert!(Referee::check_outcome(&board) == Outcome::Tie);
}

#[test]
fn double_pass_boards_have_no_legal_moves() {
    // Neither colour can move on these boards: outcome comes from counts.
    let mut board = Board::empty();
    board.set(0, 0, Cell::Taken(Player::Black));
    board.set(7, 7, Cell::Taken(Player::White));
    assert_eq!(legal_moves_of(&board, Player::Black).len(), 0);
    assert_eq!(legal_moves_of(&board, Player::White).len(), 0);
}
