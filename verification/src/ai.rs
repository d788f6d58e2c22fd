//! The adversarial search engine: a positional heuristic, negamax with
//! alpha-beta pruning, root move selection, and the request/response
//! contract of the asynchronous search agent.
//!
//! Scores are integers. The heuristic is a sum of per-cell weights between
//! 1 and 7 over at most 64 cells, so every score fits in [-448, 448].
//!
//! The pruned search is specified against `negamax_spec`, the exact
//! unpruned value, in the classic fail-soft style: a result strictly inside
//! the (alpha, beta) window equals the exact value; a result at or below
//! alpha is an upper bound on it; a result at or above beta is a lower
//! bound. With an unbounded window the result is therefore exact, which is
//! why pruning never changes the move picked at the root.

use vstd::prelude::*;
use crate::board::{Board, Cell, Player};
use crate::common::{CellList, Move, move_on_board};
use crate::referee::{
    Referee, all_on_board, apply_spec, flip_set_spec, legal_moves,
    lemma_flip_set_on_board, lemma_legal_moves_agree,
};

verus! {

/// The largest magnitude any score can reach: all 64 cells at top weight 7.
pub const SCORE_LIMIT: i32 = 448;

pub open spec fn in_score_range(v: int) -> bool {
    -448 <= v <= 448
}

/// Positional weight of the cells in rows 0 and 7.
pub open spec fn weight_row_outer(col: int) -> int {
    if col == 0 || col == 7 {
        7
    } else if col == 1 || col == 6 {
        2
    } else if col == 2 || col == 5 {
        5
    } else {
        4
    }
}

/// Positional weight of the cells in rows 1 and 6.
pub open spec fn weight_row_second(col: int) -> int {
    if col == 0 || col == 7 {
        2
    } else if col == 1 || col == 6 {
        1
    } else {
        3
    }
}

/// Positional weight of the cells in rows 2 and 5.
pub open spec fn weight_row_third(col: int) -> int {
    if col == 1 || col == 6 {
        3
    } else {
        5
    }
}

/// Positional weight of the cells in rows 3 and 4.
pub open spec fn weight_row_inner(col: int) -> int {
    if col == 0 || col == 7 {
        4
    } else if col == 1 || col == 6 {
        3
    } else if col == 2 || col == 5 {
        5
    } else {
        6
    }
}

/// The fixed 8x8 positional weight table: corners and edges weigh most,
/// cells adjacent to corners least.
pub open spec fn position_weight(row: int, col: int) -> int {
    if row == 0 || row == 7 {
        weight_row_outer(col)
    } else if row == 1 || row == 6 {
        weight_row_second(col)
    } else if row == 2 || row == 5 {
        weight_row_third(col)
    } else {
        weight_row_inner(col)
    }
}

/// The weighted positional sum over the first `n` cells owned by `player`.
pub open spec fn heur_upto(g: Seq<Cell>, player: Player, n: int) -> int
    decreases n,
{
    if n <= 0 {
        0
    } else {
        heur_upto(g, player, n - 1) + if g[n - 1] == Cell::Taken(player) {
            position_weight((n - 1) / 8, (n - 1) % 8)
        } else {
            0
        }
    }
}

/// The static positional score of the board for `player`: the sum of the
/// weight table over the cells `player` owns.
pub open spec fn heuristic(g: Seq<Cell>, player: Player) -> int {
    heur_upto(g, player, 64)
}

proof fn lemma_heur_upto_bounds(g: Seq<Cell>, player: Player, n: int)
    requires
        n >= 0,
    ensures
        0 <= heur_upto(g, player, n) <= 7 * n,
    decreases n,
{
    if n > 0 {
        lemma_heur_upto_bounds(g, player, n - 1);
    }
}

/// The exact positional weight of the cell at (row, col).
fn cell_weight(row: usize, col: usize) -> (w: i32)
    requires
        row < 8,
        col < 8,
    ensures
        w as int == position_weight(row as int, col as int),
        1 <= w <= 7,
{
    if row == 0 || row == 7 {
        if col == 0 || col == 7 {
            7
        } else if col == 1 || col == 6 {
            2
        } else if col == 2 || col == 5 {
            5
        } else {
            4
        }
    } else if row == 1 || row == 6 {
        if col == 0 || col == 7 {
            2
        } else if col == 1 || col == 6 {
            1
        } else {
            3
        }
    } else if row == 2 || row == 5 {
        if col == 1 || col == 6 {
            3
        } else {
            5
        }
    } else {
        if col == 0 || col == 7 {
            4
        } else if col == 1 || col == 6 {
            3
        } else if col == 2 || col == 5 {
            5
        } else {
            6
        }
    }
}

/// Sum the fixed weight table over the cells `player` owns.
#[verifier::loop_isolation(false)]
pub fn calculate_weighted_piece_positions(board: Board, player: Player) -> (score: i32)
    requires
        board.well_formed(),
    ensures
        score as int == heuristic(board@, player),
        0 <= score <= SCORE_LIMIT,
{
    let mut sum: i32 = 0;
    let mut i: usize = 0;
    while i < 64
        invariant
            i <= 64,
            sum as int == heur_upto(board@, player, i as int),
            0 <= sum <= 7 * i,
        decreases 64 - i,
    {
        let row = i / 8;
        let col = i % 8;
        match board.get(row, col) {
            Cell::Taken(p) if p == player => {
                sum = sum + cell_weight(row, col);
            },
            _ => {},
        }
        i = i + 1;
    }
    proof {
        lemma_heur_upto_bounds(board@, player, 64);
    }
    sum
}

/// The leaf evaluation used when search bottoms out or the game has ended
/// within the horizon, always from the perspective of the player to move.
pub fn calculate_heuristic(board: Board, player: Player) -> (score: i32)
    requires
        board.well_formed(),
    ensures
        score as int == heuristic(board@, player),
        0 <= score <= SCORE_LIMIT,
{
    calculate_weighted_piece_positions(board, player)
}

/// The grid after `player` plays `mv`: the move cell and its flip set taken
/// by `player`, everything else unchanged.
pub open spec fn child_grid(g: Seq<Cell>, player: Player, mv: Move) -> Seq<Cell> {
    apply_spec(g, player, mv, flip_set_spec(g, player, mv))
}

/// The exact game-tree value of the position for the player to move, to
/// `depth` plies, with no pruning:
/// - at depth 0, the heuristic for the player to move;
/// - with no legal move after the previous player also passed, the game is
///   over: the heuristic for the player to move;
/// - with no legal move otherwise, the value of the same board for the
///   opponent one ply deeper, the pass flag set — a forced pass consumes no
///   board change;
/// - otherwise the maximum over all legal moves of the successor value.
pub open spec fn negamax_spec(g: Seq<Cell>, player: Player, depth: nat, prev_passed: bool) -> int
    decreases depth, 2int, 0int,
{
    if depth == 0 {
        heuristic(g, player)
    } else if legal_moves(g, player).len() == 0 {
        if prev_passed {
            heuristic(g, player)
        } else {
            negamax_spec(g, player.spec_opponent(), (depth - 1) as nat, true)
        }
    } else {
        best_value_upto(g, player, depth, legal_moves(g, player).len() as int)
    }
}

/// The maximum of `move_value` over the first `i` legal moves (i >= 1).
pub open spec fn best_value_upto(g: Seq<Cell>, player: Player, depth: nat, i: int) -> int
    decreases depth, 1int, i,
{
    let v = move_value(g, player, depth, legal_moves(g, player)[i - 1]);
    if i <= 1 {
        v
    } else {
        let prev = best_value_upto(g, player, depth, i - 1);
        if v > prev {
            v
        } else {
            prev
        }
    }
}

/// The value `mv` earns the mover: the negation of the successor position's
/// value from the opponent's perspective, one ply shallower. Only positions
/// with remaining depth expand moves, so the depth-zero case is never read.
pub open spec fn move_value(g: Seq<Cell>, player: Player, depth: nat, mv: Move) -> int
    decreases depth, 0int, 0int,
{
    if depth == 0 {
        0
    } else {
        -negamax_spec(child_grid(g, player, mv), player.spec_opponent(), (depth - 1) as nat, false)
    }
}

pub proof fn lemma_negamax_spec_bounds(g: Seq<Cell>, player: Player, depth: nat, prev_passed: bool)
    ensures
        in_score_range(negamax_spec(g, player, depth, prev_passed)),
    decreases depth, 2int, 0int,
{
    if depth == 0 {
        lemma_heur_upto_bounds(g, player, 64);
    } else if legal_moves(g, player).len() == 0 {
        if prev_passed {
            lemma_heur_upto_bounds(g, player, 64);
        } else {
            lemma_negamax_spec_bounds(g, player.spec_opponent(), (depth - 1) as nat, true);
        }
    } else {
        lemma_best_value_bounds(g, player, depth, legal_moves(g, player).len() as int);
    }
}

proof fn lemma_move_value_bounds(g: Seq<Cell>, player: Player, depth: nat, mv: Move)
    ensures
        in_score_range(move_value(g, player, depth, mv)),
    decreases depth, 0int, 0int,
{
    if depth > 0 {
        lemma_negamax_spec_bounds(
            child_grid(g, player, mv), player.spec_opponent(), (depth - 1) as nat, false);
    }
}

proof fn lemma_best_value_bounds(g: Seq<Cell>, player: Player, depth: nat, i: int)
    ensures
        in_score_range(best_value_upto(g, player, depth, i)),
    decreases depth, 1int, i,
{
    lemma_move_value_bounds(g, player, depth, legal_moves(g, player)[i - 1]);
    if i > 1 {
        lemma_best_value_bounds(g, player, depth, i - 1);
    }
}

/// The running maximum over a prefix never exceeds the maximum over the
/// whole list.
proof fn lemma_best_value_monotone(g: Seq<Cell>, player: Player, depth: nat, i: int, j: int)
    requires
        1 <= i <= j,
    ensures
        best_value_upto(g, player, depth, i) <= best_value_upto(g, player, depth, j),
    decreases j,
{
    if i < j {
        lemma_best_value_monotone(g, player, depth, i, j - 1);
    }
}

/// Build the successor board: copy the board, then set the move cell and
/// every flipped cell to the mover's colour.
pub fn get_board_after_move(board: &Board, player: Player, next_move: Move) -> (new_board: Board)
    requires
        board.well_formed(),
        next_move.0 < 8,
        next_move.1 < 8,
    ensures
        new_board.well_formed(),
        new_board@ == child_grid(board@, player, next_move),
{
    let referee = Referee::default();
    let mut new_board = board.duplicate();
    let mut flip_cells = CellList::new();
    referee.find_flip_cells_for_move(board, player, next_move, &mut flip_cells);
    proof {
        lemma_flip_set_on_board(board@, player, next_move);
    }
    Referee::apply_move(&mut new_board, player, next_move, &flip_cells);
    new_board
}

/// The value an `Option` bound carries; zero stands for "no bound" and is
/// never read behind a `None`.
pub open spec fn opt_val(x: Option<i32>) -> int {
    match x {
        Some(v) => v as int,
        None => 0,
    }
}

pub open spec fn bound_ok(x: Option<i32>) -> bool {
    x is Some ==> in_score_range(opt_val(x))
}

/// A usable search window: both bounds in score range, and the lower bound
/// strictly below the upper one where both are present.
pub open spec fn valid_window(alpha: Option<i32>, beta: Option<i32>) -> bool {
    &&& bound_ok(alpha)
    &&& bound_ok(beta)
    &&& (alpha is Some && beta is Some ==> opt_val(alpha) < opt_val(beta))
}

/// The result is above the lower bound (or there is none).
pub open spec fn above_alpha(r: int, alpha: Option<i32>) -> bool {
    alpha is None || r > opt_val(alpha)
}

/// The result is below the upper bound (or there is none).
pub open spec fn below_beta(r: int, beta: Option<i32>) -> bool {
    beta is None || r < opt_val(beta)
}

/// The fail-soft alpha-beta contract relating a search result `r` to the
/// exact value `v`: exact strictly inside the window, an upper bound on `v`
/// at or below alpha, a lower bound on `v` at or above beta.
pub open spec fn window_result(v: int, r: int, alpha: Option<i32>, beta: Option<i32>) -> bool {
    &&& above_alpha(r, alpha) && below_beta(r, beta) ==> r == v
    &&& !above_alpha(r, alpha) ==> v <= r
    &&& !below_beta(r, beta) ==> v >= r
}

/// Negate an optional bound.
fn negate(value: Option<i32>) -> (negated: Option<i32>)
    requires
        bound_ok(value),
    ensures
        negated is Some <==> value is Some,
        value is Some ==> opt_val(negated) == -opt_val(value),
        bound_ok(negated),
{
    match value {
        Some(v) => Some(-v),
        None => None,
    }
}

/// Bounded-depth adversarial search with fail-soft alpha-beta pruning.
///
/// Terminal conditions: depth exhausted, or no legal move after the
/// previous player also had none (double pass). A forced pass recurses to
/// the opponent one ply deeper with the pass flag set, leaving the board
/// unchanged. Otherwise every legal move's successor is searched with the
/// negated, swapped window, and siblings are skipped once the running lower
/// bound reaches beta.
#[verifier::loop_isolation(false)]
pub fn negamax(
    board: Board,
    player: Player,
    depth: u32,
    prev_passed: bool,
    alpha: Option<i32>,
    beta: Option<i32>,
) -> (score: i32)
    requires
        board.well_formed(),
        valid_window(alpha, beta),
    ensures
        in_score_range(score as int),
        window_result(
            negamax_spec(board@, player, depth as nat, prev_passed),
            score as int, alpha, beta),
        alpha is None && beta is None
            ==> score as int == negamax_spec(board@, player, depth as nat, prev_passed),
    decreases depth,
{
    if depth == 0 {
        return calculate_heuristic(board, player);
    }
    let referee = Referee::default();
    let mut valid_moves = CellList::new();
    let mut current_alpha = alpha;
    referee.find_all_valid_moves(&board, player, &mut valid_moves);
    let opp = player.opponent();
    if valid_moves.count() == 0 {
        if prev_passed {
            return calculate_heuristic(board, player);
        } else {
            return negamax(board, opp, depth - 1, true, current_alpha, beta);
        }
    }
    let ghost g = board@;
    let ghost d = depth as nat;
    let ghost moves = legal_moves(g, player);
    proof {
        lemma_legal_moves_agree(g, player);
    }
    let count = valid_moves.count();
    let mut best: Option<i32> = None;
    let mut cut = false;
    let mut i: usize = 0;
    while i < count && !cut
        invariant
            i <= count,
            count == moves.len(),
            i == 0 ==> best is None && current_alpha == alpha,
            i >= 1 ==> best is Some && current_alpha is Some && {
                let m = opt_val(best);
                &&& in_score_range(m)
                &&& opt_val(current_alpha) == if alpha is Some && opt_val(alpha) >= m {
                    opt_val(alpha)
                } else {
                    m
                }
                &&& m <= best_value_upto(g, player, d, i as int)
                    || (alpha is Some && m <= opt_val(alpha))
                &&& m >= best_value_upto(g, player, d, i as int)
                    || (beta is Some && m >= opt_val(beta))
            },
            !cut && current_alpha is Some && beta is Some
                ==> opt_val(current_alpha) < opt_val(beta),
            cut ==> i >= 1 && beta is Some && opt_val(best) >= opt_val(beta),
            bound_ok(current_alpha),
        decreases count - i,
    {
        let mv = valid_moves.get(i);
        proof {
            assert(moves[i as int] == mv);
            assert(move_on_board(mv));
        }
        let child = get_board_after_move(&board, player, mv);
        let child_alpha = negate(beta);
        let child_beta = negate(current_alpha);
        let child_score = negamax(child, opp, depth - 1, false, child_alpha, child_beta);
        let val = -child_score;
        let ghost vj = move_value(g, player, d, mv);
        proof {
            // translate the child's fail-soft contract to the mover's view:
            // the child's alpha bound is the mover's beta bound and vice
            // versa, with all signs flipped
            assert(vj == -negamax_spec(child@, opp, (d - 1) as nat, false));
            if beta is Some && (val as int) >= opt_val(beta) {
                assert(!above_alpha(child_score as int, child_alpha));
                assert(vj >= val as int);
            }
            if current_alpha is Some && (val as int) <= opt_val(current_alpha) {
                assert(!below_beta(child_score as int, child_beta));
                assert(vj <= val as int);
            }
            if (beta is None || (val as int) < opt_val(beta))
                && (current_alpha is None || (val as int) > opt_val(current_alpha)) {
                assert(val as int == vj);
            }
        }
        let ghost best_before = best;
        let ghost alpha_before = current_alpha;
        if best.is_none() || val > best.unwrap() {
            best = Some(val);
        }
        if current_alpha.is_none() || val > current_alpha.unwrap() {
            current_alpha = Some(val);
        }
        proof {
            let m1 = opt_val(best);
            let vi1 = best_value_upto(g, player, d, i + 1);
            if i == 0 {
                assert(vi1 == vj);
            } else {
                assert(vi1 == if vj > best_value_upto(g, player, d, i as int) {
                    vj
                } else {
                    best_value_upto(g, player, d, i as int)
                });
            }
            // upper tracking: m1 <= vi1 unless m1 hides at or below alpha
            if !(alpha is Some && m1 <= opt_val(alpha)) {
                if best_before is Some && m1 == opt_val(best_before) {
                    assert(m1 <= vi1);
                } else {
                    // the new maximum came from this child
                    assert(m1 == val as int);
                    if current_alpha is Some && alpha_before is Some
                        && val <= opt_val(alpha_before) {
                        assert(val <= opt_val(alpha));
                    }
                    assert(m1 <= vi1);
                }
            }
            // lower tracking: m1 >= vi1 unless m1 already sits at or above beta
            if !(beta is Some && m1 >= opt_val(beta)) {
                assert(val as int >= vj || (beta is Some && val >= opt_val(beta)));
                assert(m1 >= vi1);
            }
        }
        i = i + 1;
        if current_alpha.is_some() && beta.is_some() && current_alpha.unwrap() >= beta.unwrap() {
            // alpha meets beta: the remaining siblings cannot matter
            cut = true;
        }
    }
    proof {
        let m = opt_val(best);
        let v = negamax_spec(g, player, d, prev_passed);
        lemma_best_value_monotone(g, player, d, i as int, count as int);
        assert(v == best_value_upto(g, player, d, count as int));
        assert(m <= v || (alpha is Some && m <= opt_val(alpha)));
        assert(m >= best_value_upto(g, player, d, i as int)
            || (beta is Some && m >= opt_val(beta)));
        if !cut {
            assert(i == count);
        }
        if above_alpha(m, alpha) && below_beta(m, beta) {
            assert(m == v);
        }
    }
    best.unwrap()
}

/// The index, among the first `i` candidates, of the first candidate whose
/// value strictly exceeds every earlier one.
pub open spec fn best_index_upto(g: Seq<Cell>, player: Player, depth: nat, moves: Seq<Move>, i: int) -> int
    decreases i,
{
    if i <= 1 {
        0
    } else {
        let k = best_index_upto(g, player, depth, moves, i - 1);
        if move_value(g, player, depth, moves[i - 1]) > move_value(g, player, depth, moves[k]) {
            i - 1
        } else {
            k
        }
    }
}

/// The index of the move exhaustive search picks: the first candidate of
/// strictly greatest value, ties resolved to the earliest.
pub open spec fn best_move_index(g: Seq<Cell>, player: Player, depth: nat, moves: Seq<Move>) -> int {
    best_index_upto(g, player, depth, moves, moves.len() as int)
}

/// Pick the candidate whose successor search scores best for the mover,
/// first-seen-wins on ties. Pruning inside the per-candidate searches never
/// changes this choice: each candidate is searched with an unbounded
/// window, so its score is exact.
///
/// Must not be called with an empty candidate list: with no legal move
/// there is nothing to choose (the caller handles the pass instead).
#[verifier::loop_isolation(false)]
pub fn calculate_best_move(board: Board, valid_moves: CellList, player: Player, depth: u32) -> (best_move: Move)
    requires
        board.well_formed(),
        depth >= 1,
        valid_moves@.len() >= 1,
        all_on_board(valid_moves@),
    ensures
        best_move == valid_moves@[
            best_move_index(board@, player, depth as nat, valid_moves@)],
{
    let ghost g = board@;
    let ghost d = depth as nat;
    let ghost moves = valid_moves@;
    let opp = player.opponent();
    let count = valid_moves.count();
    let mut max: Option<i32> = None;
    let mut max_index: Option<usize> = None;
    let mut i: usize = 0;
    while i < count
        invariant
            i <= count,
            i == 0 ==> max is None && max_index is None,
            i >= 1 ==> max is Some && max_index is Some && {
                let k = best_index_upto(g, player, d, moves, i as int);
                &&& 0 <= k < i
                &&& max_index == Some(k as usize)
                &&& opt_val(max) == move_value(g, player, d, moves[k])
            },
        decreases count - i,
    {
        let mv = valid_moves.get(i);
        let child = get_board_after_move(&board, player, mv);
        let child_score = negamax(child, opp, depth - 1, false, None, None);
        let val = -child_score;
        proof {
            assert(val as int == move_value(g, player, d, moves[i as int]));
        }
        if max_index.is_none() || val > max.unwrap() {
            max = Some(val);
            max_index = Some(i);
        }
        proof {
            if i >= 1 {
                assert(best_index_upto(g, player, d, moves, i + 1)
                    == if move_value(g, player, d, moves[i as int])
                        > move_value(g, player, d, moves[best_index_upto(g, player, d, moves, i as int)]) {
                        i as int
                    } else {
                        best_index_upto(g, player, d, moves, i as int)
                    });
            }
        }
        i = i + 1;
    }
    valid_moves.get(max_index.unwrap())
}

/// Bounded-depth search with no pruning: literally the exact value.
#[verifier::loop_isolation(false)]
pub fn negamax_exhaustive(board: Board, player: Player, depth: u32, prev_passed: bool) -> (score: i32)
    requires
        board.well_formed(),
    ensures
        score as int == negamax_spec(board@, player, depth as nat, prev_passed),
        in_score_range(score as int),
    decreases depth,
{
    if depth == 0 {
        return calculate_heuristic(board, player);
    }
    let referee = Referee::default();
    let mut valid_moves = CellList::new();
    referee.find_all_valid_moves(&board, player, &mut valid_moves);
    let opp = player.opponent();
    if valid_moves.count() == 0 {
        if prev_passed {
            return calculate_heuristic(board, player);
        } else {
            return negamax_exhaustive(board, opp, depth - 1, true);
        }
    }
    let ghost g = board@;
    let ghost d = depth as nat;
    proof {
        lemma_legal_moves_agree(g, player);
    }
    let count = valid_moves.count();
    let mut best: Option<i32> = None;
    let mut i: usize = 0;
    while i < count
        invariant
            i <= count,
            count == legal_moves(g, player).len(),
            i == 0 ==> best is None,
            i >= 1 ==> best is Some
                && opt_val(best) == best_value_upto(g, player, d, i as int)
                && in_score_range(opt_val(best)),
        decreases count - i,
    {
        let mv = valid_moves.get(i);
        let child = get_board_after_move(&board, player, mv);
        let val = -negamax_exhaustive(child, opp, depth - 1, false);
        proof {
            assert(val as int == move_value(g, player, d, legal_moves(g, player)[i as int]));
        }
        if best.is_none() || val > best.unwrap() {
            best = Some(val);
        }
        i = i + 1;
    }
    best.unwrap()
}

/// Which algorithm the agent runs for a request.
#[derive(Clone, Copy, PartialEq, Eq, Structural, Debug)]
pub enum AiType {
    Random,
    Minimax,
}

/// A request to the search agent: a board snapshot, the player to move,
/// the algorithm, the search depth, and whether to pace the response.
pub struct MoveRequest {
    pub board: Board,
    pub player: Player,
    pub pace_response: bool,
    pub algorithm_choice: AiType,
    pub recursion_depth: usize,
}

/// The agent's answer: the snapshot it computed against, the player it
/// computed for, and the chosen move — or the out-of-range sentinel when
/// the player has no legal move at all.
pub struct MoveResult {
    pub board: Board,
    pub player: Player,
    pub next_move: Move,
}

/// The out-of-range coordinate that signals "no legal move could be
/// produced".
pub open spec fn no_move_sentinel() -> Move {
    (8usize, 8usize)
}

/// Answer one move request: echo the snapshot and player, and pick either
/// the first legal move (Random) or the search engine's choice (Minimax);
/// with no legal move, answer the sentinel.
pub fn compute_move_response(request: &MoveRequest) -> (result: MoveResult)
    requires
        request.board.well_formed(),
        1 <= request.recursion_depth <= u32::MAX,
    ensures
        result.board@ == request.board@,
        result.board.well_formed(),
        result.player == request.player,
        legal_moves(request.board@, request.player).len() == 0
            ==> result.next_move == no_move_sentinel(),
        legal_moves(request.board@, request.player).len() > 0
            ==> result.next_move == match request.algorithm_choice {
                AiType::Random => legal_moves(request.board@, request.player)[0],
                AiType::Minimax => legal_moves(request.board@, request.player)[
                    best_move_index(
                        request.board@, request.player,
                        request.recursion_depth as nat,
                        legal_moves(request.board@, request.player))],
            },
{
    let referee = Referee::default();
    let mut valid_moves = CellList::new();
    let has_moves = referee.find_all_valid_moves(&request.board, request.player, &mut valid_moves);
    let next_move: Move = if !has_moves {
        (8, 8)
    } else {
        match request.algorithm_choice {
            AiType::Random => valid_moves.get(0),
            AiType::Minimax => {
                proof {
                    lemma_legal_moves_agree(request.board@, request.player);
                }
                calculate_best_move(
                    request.board.duplicate(), valid_moves, request.player,
                    request.recursion_depth as u32)
            },
        }
    };
    MoveResult { board: request.board.duplicate(), player: request.player, next_move }
}

proof fn lemma_heur_upto_invert(g: Seq<Cell>, player: Player, n: int)
    requires
        g.len() == 64,
        n <= 64,
    ensures
        heur_upto(crate::referee::invert_grid(g), player.spec_opponent(), n)
            == heur_upto(g, player, n),
    decreases n,
{
    if n > 0 {
        lemma_heur_upto_invert(g, player, n - 1);
        assert(crate::referee::invert_grid(g)[n - 1]
            == crate::referee::invert_cell(g[n - 1]));
    }
}

proof fn lemma_child_grid_invert(g: Seq<Cell>, player: Player, mv: Move)
    requires
        g.len() == 64,
        move_on_board(mv),
    ensures
        child_grid(crate::referee::invert_grid(g), player.spec_opponent(), mv)
            == crate::referee::invert_grid(child_grid(g, player, mv)),
{
    crate::referee::lemma_flip_set_color_symmetry(g, player, mv);
    assert(child_grid(crate::referee::invert_grid(g), player.spec_opponent(), mv)
        =~= crate::referee::invert_grid(child_grid(g, player, mv)));
}

/// Colour symmetry of the search value: inverting every piece's colour and
/// handing the move to the other player leaves the negamax value unchanged
/// — the sanity check that the search treats the two colours alike.
pub proof fn lemma_negamax_color_symmetry(g: Seq<Cell>, player: Player, depth: nat, prev_passed: bool)
    requires
        g.len() == 64,
    ensures
        negamax_spec(crate::referee::invert_grid(g), player.spec_opponent(), depth, prev_passed)
            == negamax_spec(g, player, depth, prev_passed),
    decreases depth, 2int, 0int,
{
    lemma_heur_upto_invert(g, player, 64);
    crate::referee::lemma_legal_moves_color_symmetry(g, player);
    if depth > 0 && legal_moves(g, player).len() == 0 && !prev_passed {
        lemma_negamax_color_symmetry(g, player.spec_opponent(), (depth - 1) as nat, true);
    }
    if depth > 0 && legal_moves(g, player).len() > 0 {
        lemma_best_value_color_symmetry(
            g, player, depth, legal_moves(g, player).len() as int);
    }
}

proof fn lemma_best_value_color_symmetry(g: Seq<Cell>, player: Player, depth: nat, i: int)
    requires
        g.len() == 64,
        1 <= i <= legal_moves(g, player).len(),
    ensures
        best_value_upto(crate::referee::invert_grid(g), player.spec_opponent(), depth, i)
            == best_value_upto(g, player, depth, i),
    decreases depth, 1int, i,
{
    crate::referee::lemma_legal_moves_color_symmetry(g, player);
    lemma_legal_moves_agree(g, player);
    let gi = crate::referee::invert_grid(g);
    let q = player.spec_opponent();
    let mv = legal_moves(g, player)[i - 1];
    assert(legal_moves(gi, q)[i - 1] == mv);
    if depth > 0 {
        lemma_child_grid_invert(g, player, mv);
        lemma_negamax_color_symmetry(
            child_grid(g, player, mv), q, (depth - 1) as nat, false);
        assert(q.spec_opponent() == player);
        assert(negamax_spec(child_grid(gi, q, mv), player, (depth - 1) as nat, false)
            == negamax_spec(child_grid(g, player, mv), q, (depth - 1) as nat, false));
        assert(move_value(gi, q, depth, mv) == move_value(g, player, depth, mv));
    } else {
        assert(move_value(gi, q, depth, mv) == move_value(g, player, depth, mv));
    }
    if i > 1 {
        lemma_best_value_color_symmetry(g, player, depth, i - 1);
    }
}

proof fn lemma_heur_upto_bare(g: Seq<Cell>, player: Player, n: int)
    requires
        forall|i: int| 0 <= i < 64 ==> g[i] == Cell::Empty,
        n <= 64,
    ensures
        heur_upto(g, player, n) == 0,
    decreases n,
{
    if n > 0 {
        lemma_heur_upto_bare(g, player, n - 1);
    }
}

proof fn lemma_flips_upto_bare(g: Seq<Cell>, player: Player, row: int, col: int, k: int)
    requires
        forall|i: int| 0 <= i < 64 ==> g[i] == Cell::Empty,
    ensures
        crate::referee::flips_upto(g, player, row, col, k).len() == 0,
    decreases k,
{
    if k > 0 {
        lemma_flips_upto_bare(g, player, row, col, k - 1);
    }
}

proof fn lemma_legal_upto_bare(g: Seq<Cell>, player: Player, n: int)
    requires
        forall|i: int| 0 <= i < 64 ==> g[i] == Cell::Empty,
        n <= 64,
    ensures
        crate::referee::legal_upto(g, player, n).len() == 0,
    decreases n,
{
    if n > 0 {
        lemma_legal_upto_bare(g, player, n - 1);
        let mv = ((((n - 1) / 8) as usize, ((n - 1) % 8) as usize));
        lemma_flips_upto_bare(g, player, mv.0 as int, mv.1 as int, 8);
        assert(!crate::referee::is_legal(g, player, mv));
    }
}

/// On a board with no pieces at all, neither player ever has a move and
/// both search values are zero, so the negamax value for one player is the
/// negation of the value for the other. On boards with pieces the one-sided
/// weight sum breaks this sign symmetry.
pub proof fn lemma_negamax_sign_symmetry_on_bare_board(
    g: Seq<Cell>,
    player: Player,
    depth: nat,
    prev_passed: bool,
)
    requires
        g.len() == 64,
        forall|i: int| 0 <= i < 64 ==> g[i] == Cell::Empty,
    ensures
        negamax_spec(g, player, depth, prev_passed)
            == -negamax_spec(g, player.spec_opponent(), depth, prev_passed),
        negamax_spec(g, player, depth, prev_passed) == 0,
    decreases depth,
{
    lemma_heur_upto_bare(g, player, 64);
    lemma_heur_upto_bare(g, player.spec_opponent(), 64);
    lemma_legal_upto_bare(g, player, 64);
    lemma_legal_upto_bare(g, player.spec_opponent(), 64);
    if depth > 0 && !prev_passed {
        lemma_negamax_sign_symmetry_on_bare_board(g, player, (depth - 1) as nat, true);
        lemma_negamax_sign_symmetry_on_bare_board(
            g, player.spec_opponent(), (depth - 1) as nat, true);
    }
}

} // verus!
