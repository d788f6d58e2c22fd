//! Game-level helpers around the rule engine: piece counting, the
//! validate-then-apply move step, and turn/termination decisions.

use vstd::prelude::*;
use crate::ai::{AiType, MoveResult};
use crate::board::{Board, Cell, Player, on_board};
use crate::common::{CellList, Move};
use crate::referee::{Outcome, Referee, count_upto, is_legal, legal_moves, piece_count};

verus! {

/// Whose turn it is, or how the game ended.
#[derive(Clone, Copy, PartialEq, Eq, Structural, Debug)]
pub enum Phase {
    Turn(Player),
    Win(Player),
    Tie,
}

/// Game-wide toggles of the interactive loop.
pub struct GameOptions {
    pub show_effects_of_moves: bool,
    pub show_valid_moves: bool,
    pub auto_restart: bool,
    pub pace_ai: bool,
    pub pause_at_win: bool,
    pub should_take_statistics: bool,
}

impl Default for GameOptions {
    fn default() -> (options: GameOptions)
        ensures
            !options.show_effects_of_moves,
            !options.show_valid_moves,
            !options.auto_restart,
            options.pace_ai,
            options.pause_at_win,
            options.should_take_statistics,
    {
        GameOptions {
            show_effects_of_moves: false,
            show_valid_moves: false,
            auto_restart: false,
            pace_ai: true,
            pause_at_win: true,
            should_take_statistics: true,
        }
    }
}

/// Per-player AI settings.
#[derive(Clone, Copy)]
pub struct PlayerOptions {
    pub ai_enabled: bool,
    pub ai_type: AiType,
    pub ai_recursion_depth: usize,
}

impl Default for PlayerOptions {
    fn default() -> (options: PlayerOptions)
        ensures
            !options.ai_enabled,
            options.ai_type == AiType::Random,
            options.ai_recursion_depth == 1,
    {
        PlayerOptions {
            ai_enabled: false,
            ai_type: AiType::Random,
            ai_recursion_depth: 1,
        }
    }
}

/// Validate a move and, if it is legal, apply it: the move cell and every
/// sandwiched cell become the mover's. An illegal move leaves the board
/// untouched and reports `false`.
pub fn make_move(board: &mut Board, player: Player, next_move: Move) -> (moved: bool)
    requires
        old(board).well_formed(),
        next_move.0 < 8,
        next_move.1 < 8,
    ensures
        final(board).well_formed(),
        moved == is_legal(old(board)@, player, next_move),
        moved ==> final(board)@ == crate::ai::child_grid(old(board)@, player, next_move),
        !moved ==> final(board)@ == old(board)@,
{
    let referee = Referee::default();
    let mut flip_cells = CellList::new();
    if referee.find_flip_cells_for_move(board, player, next_move, &mut flip_cells) {
        proof {
            crate::referee::lemma_flip_set_on_board(board@, player, next_move);
        }
        Referee::apply_move(board, player, next_move, &flip_cells);
        true
    } else {
        false
    }
}

/// Decide what follows a move by `mover` on `board`: the opponent moves if
/// they can; otherwise `mover` moves again if they can (the opponent is
/// forced to pass); otherwise neither side has a move and the piece counts
/// decide the game.
pub fn next_phase(board: &Board, mover: Player) -> (phase: Phase)
    requires
        board.well_formed(),
    ensures
        legal_moves(board@, mover.spec_opponent()).len() > 0
            ==> phase == Phase::Turn(mover.spec_opponent()),
        legal_moves(board@, mover.spec_opponent()).len() == 0
            && legal_moves(board@, mover).len() > 0
            ==> phase == Phase::Turn(mover),
        legal_moves(board@, mover.spec_opponent()).len() == 0
            && legal_moves(board@, mover).len() == 0
            ==> phase == match crate::referee::outcome_spec(board@) {
                Outcome::Won(winner) => Phase::Win(winner),
                Outcome::Tie => Phase::Tie,
            },
{
    let referee = Referee::default();
    let mut valid_moves = CellList::new();
    let opponent = mover.opponent();
    if referee.find_all_valid_moves(board, opponent, &mut valid_moves) {
        Phase::Turn(opponent)
    } else if referee.find_all_valid_moves(board, mover, &mut valid_moves) {
        Phase::Turn(mover)
    } else {
        match Referee::check_outcome(board) {
            Outcome::Won(winner) => Phase::Win(winner),
            Outcome::Tie => Phase::Tie,
        }
    }
}

/// What the interactive loop should do with an asynchronous move result.
#[derive(Clone, Copy, PartialEq, Eq, Structural, Debug)]
pub enum MoveResultAction {
    /// The result matches the current game state and carries a move.
    ApplyMove,
    /// The result is stale — computed against a board or player that is no
    /// longer current — and must be dropped without touching any state.
    DiscardStale,
    /// The engine reported that no legal move could be produced: turn the
    /// AI off for this player rather than apply anything.
    DisableAi,
}

/// Triage an asynchronous move result against the current game state. A
/// result whose board snapshot or player no longer matches is discarded
/// outright; a current result carrying the out-of-range sentinel disables
/// the AI; only a current, in-range result may be applied.
pub fn classify_move_result(
    current_board: &Board,
    expected_player: Player,
    result: &MoveResult,
) -> (action: MoveResultAction)
    requires
        current_board.well_formed(),
        result.board.well_formed(),
    ensures
        action == MoveResultAction::DiscardStale
            <==> (result.board@ != current_board@ || result.player != expected_player),
        action == MoveResultAction::DisableAi
            <==> (result.board@ == current_board@ && result.player == expected_player
                && !on_board(result.next_move.0 as int, result.next_move.1 as int)),
        action == MoveResultAction::ApplyMove
            <==> (result.board@ == current_board@ && result.player == expected_player
                && on_board(result.next_move.0 as int, result.next_move.1 as int)),
{
    if !result.board.same_grid(current_board) || result.player != expected_player {
        MoveResultAction::DiscardStale
    } else {
        let (row, col) = result.next_move;
        if row < 8 && col < 8 {
            MoveResultAction::ApplyMove
        } else {
            MoveResultAction::DisableAi
        }
    }
}

/// Count the black and white pieces over the full grid.
#[verifier::loop_isolation(false)]
pub fn count_pieces(board: &Board) -> (counts: (usize, usize))
    requires
        board.well_formed(),
    ensures
        counts.0 == piece_count(board@, Player::Black),
        counts.1 == piece_count(board@, Player::White),
{
    let mut black_count: usize = 0;
    let mut white_count: usize = 0;
    let mut i: usize = 0;
    while i < 64
        invariant
            i <= 64,
            black_count == count_upto(board@, Player::Black, i as int),
            white_count == count_upto(board@, Player::White, i as int),
            black_count <= i,
            white_count <= i,
        decreases 64 - i,
    {
        match board.get(i / 8, i % 8) {
            Cell::Taken(Player::Black) => {
                black_count = black_count + 1;
            },
            Cell::Taken(Player::White) => {
                white_count = white_count + 1;
            },
            Cell::Empty => {},
        }
        i = i + 1;
    }
    (black_count, white_count)
}

} // verus!
