//! The rule engine: legal-move computation, flip-set computation, move
//! application and end-of-game outcome.
//!
//! The mathematical model: a move is legal iff its target cell is empty and,
//! in at least one of the 8 compass directions, the neighbouring cells form a
//! "sandwich" — one or more contiguous opponent pieces immediately followed
//! by a piece of the mover before the edge or an empty cell is reached.

use vstd::prelude::*;
use crate::board::{Board, Cell, Player, cell_at, cell_index, on_board};
use crate::common::{CellList, Move, move_on_board};

verus! {

/// Result of a finished game, from the final piece counts.
#[derive(Clone, Copy, PartialEq, Eq, Structural, Debug)]
pub enum Outcome {
    Won(Player),
    Tie,
}

/// A direction step is one of the 8 compass directions.
pub open spec fn is_direction(dr: int, dc: int) -> bool {
    -1 <= dr <= 1 && -1 <= dc <= 1 && !(dr == 0 && dc == 0)
}

/// The 8 compass directions, in the order the scan visits them.
pub open spec fn directions() -> Seq<(int, int)> {
    seq![(-1, -1), (-1, 0), (-1, 1), (0, -1), (0, 1), (1, -1), (1, 0), (1, 1)]
}

/// An upper bound on how many steps a walk from (row, col) in direction
/// (dr, dc) can stay on the board; used only as a termination measure.
pub open spec fn walk_space(row: int, col: int, dr: int, dc: int) -> int {
    if dr > 0 {
        8 - row
    } else if dr < 0 {
        row + 1
    } else if dc > 0 {
        8 - col
    } else if dc < 0 {
        col + 1
    } else {
        0
    }
}

/// The cells flipped in direction (dr, dc) by a piece of `player` placed at
/// (row, col): `Some(cells)` if the walk reaches a piece of `player` over
/// zero or more contiguous opponent pieces (the sandwich closes), `None` if
/// it reaches the edge or an empty cell first. A closed sandwich over zero
/// opponent pieces yields `Some` of the empty sequence: no flips.
pub open spec fn dir_flips_from(g: Seq<Cell>, player: Player, row: int, col: int, dr: int, dc: int)
    -> Option<Seq<Move>>
    decreases walk_space(row, col, dr, dc),
{
    if !is_direction(dr, dc) || !on_board(row + dr, col + dc) {
        None
    } else if cell_at(g, row + dr, col + dc) == Cell::Taken(player.spec_opponent()) {
        match dir_flips_from(g, player, row + dr, col + dc, dr, dc) {
            Some(rest) => Some(
                seq![(((row + dr) as usize, (col + dc) as usize))].add(rest),
            ),
            None => None,
        }
    } else if cell_at(g, row + dr, col + dc) == Cell::Taken(player) {
        Some(Seq::empty())
    } else {
        None
    }
}

/// The flips a single direction contributes: the sandwich cells if one
/// closes, nothing otherwise.
pub open spec fn dir_flips(g: Seq<Cell>, player: Player, row: int, col: int, dr: int, dc: int)
    -> Seq<Move>
{
    match dir_flips_from(g, player, row, col, dr, dc) {
        Some(cells) => cells,
        None => Seq::empty(),
    }
}

/// The flips contributed by the first `k` of the 8 directions, concatenated
/// in direction order.
pub open spec fn flips_upto(g: Seq<Cell>, player: Player, row: int, col: int, k: int) -> Seq<Move>
    decreases k,
{
    if k <= 0 {
        Seq::empty()
    } else {
        flips_upto(g, player, row, col, k - 1).add(
            dir_flips(g, player, row, col, directions()[k - 1].0, directions()[k - 1].1),
        )
    }
}

/// The full flip set of a candidate move: the union of the contributing
/// cells across all 8 directions. A move onto an occupied cell never flips
/// anything (it is always illegal).
pub open spec fn flip_set_spec(g: Seq<Cell>, player: Player, mv: Move) -> Seq<Move> {
    if cell_at(g, mv.0 as int, mv.1 as int) == Cell::Empty {
        flips_upto(g, player, mv.0 as int, mv.1 as int, 8)
    } else {
        Seq::empty()
    }
}

/// A move is legal iff it targets an empty on-board cell and flips at least
/// one opposing piece.
pub open spec fn is_legal(g: Seq<Cell>, player: Player, mv: Move) -> bool {
    &&& on_board(mv.0 as int, mv.1 as int)
    &&& flip_set_spec(g, player, mv).len() > 0
}

/// The legal moves among the first `n` cells in row-major order.
pub open spec fn legal_upto(g: Seq<Cell>, player: Player, n: int) -> Seq<Move>
    decreases n,
{
    if n <= 0 {
        Seq::empty()
    } else {
        let mv = ((((n - 1) / 8) as usize, ((n - 1) % 8) as usize));
        let prev = legal_upto(g, player, n - 1);
        if is_legal(g, player, mv) {
            prev.push(mv)
        } else {
            prev
        }
    }
}

/// All legal moves of `player`, in row-major scan order.
pub open spec fn legal_moves(g: Seq<Cell>, player: Player) -> Seq<Move> {
    legal_upto(g, player, 64)
}

/// Whether some entry of `flips` names the cell with row-major index `i`.
pub open spec fn flips_cover(flips: Seq<Move>, i: int) -> bool {
    exists|j: int| 0 <= j < flips.len()
        && cell_index((#[trigger] flips[j]).0 as int, flips[j].1 as int) == i
}

/// The grid after `player` moves to `mv` flipping `flips`: the move cell and
/// every flip cell are taken by `player`, no other cell changes.
pub open spec fn apply_spec(g: Seq<Cell>, player: Player, mv: Move, flips: Seq<Move>) -> Seq<Cell> {
    Seq::new(64, |i: int|
        if i == cell_index(mv.0 as int, mv.1 as int) || flips_cover(flips, i) {
            Cell::Taken(player)
        } else {
            g[i]
        })
}

/// Applying a move changes exactly the move cell and the flip cells, which
/// all end up taken by the mover; every other cell keeps its old content.
pub proof fn lemma_apply_changes_exactly(g: Seq<Cell>, player: Player, mv: Move, flips: Seq<Move>)
    ensures
        apply_spec(g, player, mv, flips).len() == 64,
        forall|i: int| 0 <= i < 64
            && (i == cell_index(mv.0 as int, mv.1 as int) || flips_cover(flips, i))
            ==> apply_spec(g, player, mv, flips)[i] == Cell::Taken(player),
        forall|i: int| 0 <= i < 64
            && i != cell_index(mv.0 as int, mv.1 as int) && !flips_cover(flips, i)
            ==> apply_spec(g, player, mv, flips)[i] == g[i],
{
}

/// The number of pieces of `player` among the first `n` cells.
pub open spec fn count_upto(g: Seq<Cell>, player: Player, n: int) -> int
    decreases n,
{
    if n <= 0 {
        0
    } else {
        count_upto(g, player, n - 1) + if g[n - 1] == Cell::Taken(player) { 1int } else { 0int }
    }
}

/// The number of pieces of `player` on the whole board.
pub open spec fn piece_count(g: Seq<Cell>, player: Player) -> int {
    count_upto(g, player, 64)
}

/// The outcome the final piece counts dictate: the strictly greater count
/// wins, equal counts tie.
pub open spec fn outcome_spec(g: Seq<Cell>) -> Outcome {
    if piece_count(g, Player::Black) > piece_count(g, Player::White) {
        Outcome::Won(Player::Black)
    } else if piece_count(g, Player::White) > piece_count(g, Player::Black) {
        Outcome::Won(Player::White)
    } else {
        Outcome::Tie
    }
}

/// Every coordinate in the list lies on the board.
pub open spec fn all_on_board(cells: Seq<Move>) -> bool {
    forall|j: int| 0 <= j < cells.len()
        ==> (#[trigger] cells[j]).0 < 8 && cells[j].1 < 8
}

proof fn lemma_dir_flips_from_on_board(g: Seq<Cell>, player: Player, row: int, col: int, dr: int, dc: int)
    ensures
        match dir_flips_from(g, player, row, col, dr, dc) {
            Some(cells) => all_on_board(cells),
            None => true,
        },
    decreases walk_space(row, col, dr, dc),
{
    if is_direction(dr, dc) && on_board(row + dr, col + dc)
        && cell_at(g, row + dr, col + dc) == Cell::Taken(player.spec_opponent()) {
        lemma_dir_flips_from_on_board(g, player, row + dr, col + dc, dr, dc);
    }
}

proof fn lemma_flips_upto_on_board(g: Seq<Cell>, player: Player, row: int, col: int, k: int)
    ensures
        all_on_board(flips_upto(g, player, row, col, k)),
    decreases k,
{
    if k > 0 {
        lemma_flips_upto_on_board(g, player, row, col, k - 1);
        lemma_dir_flips_from_on_board(g, player, row, col, directions()[k - 1].0, directions()[k - 1].1);
    }
}

/// Every cell a move flips lies on the board.
pub proof fn lemma_flip_set_on_board(g: Seq<Cell>, player: Player, mv: Move)
    ensures
        all_on_board(flip_set_spec(g, player, mv)),
{
    lemma_flips_upto_on_board(g, player, mv.0 as int, mv.1 as int, 8);
}

proof fn lemma_legal_upto_members(g: Seq<Cell>, player: Player, n: int)
    ensures
        forall|t: int| 0 <= t < legal_upto(g, player, n).len()
            ==> is_legal(g, player, #[trigger] legal_upto(g, player, n)[t]),
    decreases n,
{
    if n > 0 {
        lemma_legal_upto_members(g, player, n - 1);
        let mv = ((((n - 1) / 8) as usize, ((n - 1) % 8) as usize));
        if is_legal(g, player, mv) {
            let prev = legal_upto(g, player, n - 1);
            assert forall|t: int| 0 <= t < prev.push(mv).len()
                implies is_legal(g, player, #[trigger] prev.push(mv)[t]) by {
                if t < prev.len() {
                    assert(prev.push(mv)[t] == prev[t]);
                }
            }
        }
    }
}

proof fn lemma_legal_upto_contains(g: Seq<Cell>, player: Player, mv: Move, n: int)
    requires
        is_legal(g, player, mv),
        cell_index(mv.0 as int, mv.1 as int) < n,
        n <= 64,
    ensures
        legal_upto(g, player, n).contains(mv),
    decreases n,
{
    let i = cell_index(mv.0 as int, mv.1 as int);
    let prev = legal_upto(g, player, n - 1);
    let scan_mv = ((((n - 1) / 8) as usize, ((n - 1) % 8) as usize));
    if i == n - 1 {
        vstd::arithmetic::div_mod::lemma_fundamental_div_mod_converse(
            n - 1, 8, mv.0 as int, mv.1 as int);
        assert(scan_mv == mv);
        assert(prev.push(mv)[prev.len() as int] == mv);
        assert(legal_upto(g, player, n).contains(mv));
    } else {
        lemma_legal_upto_contains(g, player, mv, n - 1);
        let w = choose|w: int| 0 <= w < prev.len() && prev[w] == mv;
        if is_legal(g, player, scan_mv) {
            assert(prev.push(scan_mv)[w] == mv);
            assert(legal_upto(g, player, n).contains(mv));
        }
    }
}

/// The two rule queries agree exactly: `find_all_valid_moves` returns
/// precisely the on-board cells that are empty and for which
/// `find_flip_cells_for_move` reports a legal move with a non-empty flip
/// set.
pub proof fn lemma_legal_moves_agree(g: Seq<Cell>, player: Player)
    ensures
        forall|t: int| 0 <= t < legal_moves(g, player).len() ==> {
            let mv = #[trigger] legal_moves(g, player)[t];
            &&& move_on_board(mv)
            &&& cell_at(g, mv.0 as int, mv.1 as int) == Cell::Empty
            &&& flip_set_spec(g, player, mv).len() > 0
            &&& is_legal(g, player, mv)
        },
        forall|mv: Move| is_legal(g, player, mv) ==> legal_moves(g, player).contains(mv),
        all_on_board(legal_moves(g, player)),
{
    lemma_legal_upto_members(g, player, 64);
    assert forall|mv: Move| is_legal(g, player, mv)
        implies legal_moves(g, player).contains(mv) by {
        assert(cell_index(mv.0 as int, mv.1 as int) < 64) by {
            assert(on_board(mv.0 as int, mv.1 as int));
        }
        lemma_legal_upto_contains(g, player, mv, 64);
    }
}

/// The cell with its piece's colour swapped; empty cells stay empty.
pub open spec fn invert_cell(cell: Cell) -> Cell {
    match cell {
        Cell::Empty => Cell::Empty,
        Cell::Taken(p) => Cell::Taken(p.spec_opponent()),
    }
}

/// The colour-inverted grid.
pub open spec fn invert_grid(g: Seq<Cell>) -> Seq<Cell> {
    Seq::new(g.len(), |i: int| invert_cell(g[i]))
}

proof fn lemma_dir_flips_from_invert(g: Seq<Cell>, player: Player, row: int, col: int, dr: int, dc: int)
    requires
        g.len() == 64,
    ensures
        dir_flips_from(invert_grid(g), player.spec_opponent(), row, col, dr, dc)
            == dir_flips_from(g, player, row, col, dr, dc),
    decreases walk_space(row, col, dr, dc),
{
    if is_direction(dr, dc) && on_board(row + dr, col + dc) {
        assert(cell_at(invert_grid(g), row + dr, col + dc)
            == invert_cell(cell_at(g, row + dr, col + dc)));
        if cell_at(g, row + dr, col + dc) == Cell::Taken(player.spec_opponent()) {
            lemma_dir_flips_from_invert(g, player, row + dr, col + dc, dr, dc);
        }
    }
}

proof fn lemma_flips_upto_invert(g: Seq<Cell>, player: Player, row: int, col: int, k: int)
    requires
        g.len() == 64,
    ensures
        flips_upto(invert_grid(g), player.spec_opponent(), row, col, k)
            == flips_upto(g, player, row, col, k),
    decreases k,
{
    if k > 0 {
        lemma_flips_upto_invert(g, player, row, col, k - 1);
        lemma_dir_flips_from_invert(g, player, row, col, directions()[k - 1].0, directions()[k - 1].1);
    }
}

/// Colour symmetry of the flip computation: swapping every piece's colour
/// and the queried player yields exactly the same flip-cell coordinates,
/// and the same legality verdict.
pub proof fn lemma_flip_set_color_symmetry(g: Seq<Cell>, player: Player, mv: Move)
    requires
        g.len() == 64,
        move_on_board(mv),
    ensures
        flip_set_spec(invert_grid(g), player.spec_opponent(), mv)
            == flip_set_spec(g, player, mv),
        is_legal(invert_grid(g), player.spec_opponent(), mv) == is_legal(g, player, mv),
{
    assert(cell_at(invert_grid(g), mv.0 as int, mv.1 as int)
        == invert_cell(cell_at(g, mv.0 as int, mv.1 as int)));
    if cell_at(g, mv.0 as int, mv.1 as int) == Cell::Empty {
        lemma_flips_upto_invert(g, player, mv.0 as int, mv.1 as int, 8);
    }
}

/// Colour symmetry of the whole legal-move list.
pub proof fn lemma_legal_moves_color_symmetry(g: Seq<Cell>, player: Player)
    requires
        g.len() == 64,
    ensures
        legal_moves(invert_grid(g), player.spec_opponent()) == legal_moves(g, player),
{
    lemma_legal_upto_invert(g, player, 64);
}

proof fn lemma_legal_upto_invert(g: Seq<Cell>, player: Player, n: int)
    requires
        g.len() == 64,
        n <= 64,
    ensures
        legal_upto(invert_grid(g), player.spec_opponent(), n) == legal_upto(g, player, n),
    decreases n,
{
    if n > 0 {
        lemma_legal_upto_invert(g, player, n - 1);
        let mv = ((((n - 1) / 8) as usize, ((n - 1) % 8) as usize));
        assert(move_on_board(mv));
        lemma_flip_set_color_symmetry(g, player, mv);
    }
}

/// The k-th compass direction as executable steps.
fn direction_step(k: usize) -> (step: (i32, i32))
    requires
        k < 8,
    ensures
        (step.0 as int, step.1 as int) == directions()[k as int],
        is_direction(step.0 as int, step.1 as int),
{
    if k == 0 {
        (-1, -1)
    } else if k == 1 {
        (-1, 0)
    } else if k == 2 {
        (-1, 1)
    } else if k == 3 {
        (0, -1)
    } else if k == 4 {
        (0, 1)
    } else if k == 5 {
        (1, -1)
    } else if k == 6 {
        (1, 0)
    } else {
        (1, 1)
    }
}

/// Walk one direction from the candidate cell and append the cells of a
/// closing sandwich, if any, to `out`.
#[verifier::loop_isolation(false)]
fn scan_direction(
    board: &Board,
    player: Player,
    row: usize,
    col: usize,
    dr: i32,
    dc: i32,
    out: &mut CellList,
)
    requires
        board.well_formed(),
        row < 8,
        col < 8,
        is_direction(dr as int, dc as int),
    ensures
        final(out)@ == old(out)@.add(
            dir_flips(board@, player, row as int, col as int, dr as int, dc as int),
        ),
{
    let ghost g = board@;
    let ghost row0 = row as int;
    let ghost col0 = col as int;
    let opponent = player.opponent();
    let mut pending: Vec<Move> = Vec::new();
    let mut r: usize = row;
    let mut c: usize = col;
    loop
        invariant
            r < 8,
            c < 8,
            out@ == old(out)@,
            match dir_flips_from(g, player, r as int, c as int, dr as int, dc as int) {
                Some(rest) => dir_flips_from(g, player, row0, col0, dr as int, dc as int)
                    == Some(pending@.add(rest)),
                None => dir_flips_from(g, player, row0, col0, dr as int, dc as int) is None,
            },
        decreases walk_space(r as int, c as int, dr as int, dc as int),
    {
        let nr_i: i32 = r as i32 + dr;
        let nc_i: i32 = c as i32 + dc;
        if nr_i < 0 || nr_i >= 8 || nc_i < 0 || nc_i >= 8 {
            // edge of the board: no sandwich in this direction
            proof {
                assert(old(out)@.add(Seq::<Move>::empty()) =~= old(out)@);
            }
            return;
        }
        let nr: usize = nr_i as usize;
        let nc: usize = nc_i as usize;
        let cell = board.get(nr, nc);
        if cell == Cell::Taken(opponent) {
            let ghost pending_before = pending@;
            pending.push((nr, nc));
            proof {
                match dir_flips_from(g, player, nr as int, nc as int, dr as int, dc as int) {
                    Some(rest) => {
                        assert(dir_flips_from(g, player, r as int, c as int, dr as int, dc as int)
                            == Some(seq![((nr, nc))].add(rest)));
                        assert(pending@.add(rest)
                            =~= pending_before.add(seq![((nr, nc))].add(rest)));
                    },
                    None => {
                        assert(dir_flips_from(
                            g, player, r as int, c as int, dr as int, dc as int) is None);
                    },
                }
            }
            r = nr;
            c = nc;
        } else if cell == Cell::Taken(player) {
            // the sandwich closes: keep everything walked over
            proof {
                assert(dir_flips_from(g, player, r as int, c as int, dr as int, dc as int)
                    == Some(Seq::<Move>::empty()));
                assert(pending@.add(Seq::<Move>::empty()) =~= pending@);
            }
            out.append_vec(&mut pending);
            return;
        } else {
            // an empty cell: no sandwich in this direction
            proof {
                assert(old(out)@.add(Seq::<Move>::empty()) =~= old(out)@);
            }
            return;
        }
    }
}

pub struct Referee {}

impl Default for Referee {
    fn default() -> (referee: Referee) {
        Referee {}
    }
}

impl Referee {
    /// For the candidate cell `next_move`, collect into `flip_cells` the
    /// cells a move there would flip, and report whether the move is legal:
    /// the cell is empty and at least one direction sandwiches.
    #[verifier::loop_isolation(false)]
    pub fn find_flip_cells_for_move(
        &self,
        board: &Board,
        player: Player,
        next_move: Move,
        flip_cells: &mut CellList,
    ) -> (legal: bool)
        requires
            board.well_formed(),
            next_move.0 < 8,
            next_move.1 < 8,
        ensures
            final(flip_cells)@ == flip_set_spec(board@, player, next_move),
            legal == is_legal(board@, player, next_move),
    {
        let (row, col) = next_move;
        flip_cells.clear();
        if board.get(row, col) != Cell::Empty {
            return false;
        }
        let mut k: usize = 0;
        while k < 8
            invariant
                k <= 8,
                flip_cells@ == flips_upto(board@, player, row as int, col as int, k as int),
            decreases 8 - k,
        {
            let (dr, dc) = direction_step(k);
            scan_direction(board, player, row, col, dr, dc, flip_cells);
            k = k + 1;
        }
        flip_cells.count() > 0
    }

    /// Collect all legal moves of `player` into `valid_moves`, in row-major
    /// scan order, and report whether there is at least one. An empty list
    /// is a normal game state (a pass), not a failure.
    #[verifier::loop_isolation(false)]
    pub fn find_all_valid_moves(
        &self,
        board: &Board,
        player: Player,
        valid_moves: &mut CellList,
    ) -> (has_moves: bool)
        requires
            board.well_formed(),
        ensures
            final(valid_moves)@ == legal_moves(board@, player),
            has_moves == (legal_moves(board@, player).len() > 0),
    {
        valid_moves.clear();
        let mut scratch = CellList::new();
        let mut i: usize = 0;
        while i < 64
            invariant
                i <= 64,
                valid_moves@ == legal_upto(board@, player, i as int),
            decreases 64 - i,
        {
            let mv: Move = (i / 8, i % 8);
            if self.find_flip_cells_for_move(board, player, mv, &mut scratch) {
                valid_moves.push(mv);
            }
            i = i + 1;
        }
        valid_moves.count() > 0
    }

    /// Unconditionally set the move cell and every flip cell to
    /// `Taken(player)`; no other cell changes. The caller must have
    /// validated legality already — this is a pure mutation.
    #[verifier::loop_isolation(false)]
    pub fn apply_move(board: &mut Board, player: Player, next_move: Move, flip_cells: &CellList)
        requires
            old(board).well_formed(),
            next_move.0 < 8,
            next_move.1 < 8,
            forall|j: int| 0 <= j < flip_cells@.len()
                ==> (#[trigger] flip_cells@[j]).0 < 8 && flip_cells@[j].1 < 8,
        ensures
            final(board).well_formed(),
            final(board)@ == apply_spec(old(board)@, player, next_move, flip_cells@),
    {
        let ghost g0 = board@;
        let ghost flips = flip_cells@;
        board.set(next_move.0, next_move.1, Cell::Taken(player));
        proof {
            assert(board@ =~= apply_spec(g0, player, next_move, flips.take(0)));
        }
        let count = flip_cells.count();
        let mut j: usize = 0;
        while j < count
            invariant
                j <= flips.len(),
                board@ == apply_spec(g0, player, next_move, flips.take(j as int)),
            decreases flips.len() - j,
        {
            let (fr, fc) = flip_cells.get(j);
            let ghost prev = board@;
            board.set(fr, fc, Cell::Taken(player));
            proof {
                let jj = j as int;
                let fi = cell_index(fr as int, fc as int);
                assert forall|i: int| flips_cover(flips.take(jj), i)
                    implies flips_cover(flips.take(jj + 1), i) by {
                    let w = choose|w: int| 0 <= w < flips.take(jj).len()
                        && cell_index((#[trigger] flips.take(jj)[w]).0 as int,
                            flips.take(jj)[w].1 as int) == i;
                    assert(flips.take(jj + 1)[w] == flips[w]);
                }
                assert forall|i: int| flips_cover(flips.take(jj + 1), i) && i != fi
                    implies flips_cover(flips.take(jj), i) by {
                    let w = choose|w: int| 0 <= w < flips.take(jj + 1).len()
                        && cell_index((#[trigger] flips.take(jj + 1)[w]).0 as int,
                            flips.take(jj + 1)[w].1 as int) == i;
                    assert(w < jj);
                    assert(flips.take(jj)[w] == flips[w]);
                }
                assert(flips_cover(flips.take(jj + 1), fi)) by {
                    assert(flips.take(jj + 1)[jj] == flips[jj]);
                }
                assert(prev.update(fi, Cell::Taken(player))
                    =~= apply_spec(g0, player, next_move, flips.take(jj + 1)));
            }
            j = j + 1;
        }
        proof {
            assert(flips.take(flips.len() as int) =~= flips);
        }
    }

    /// Count both colours over the full grid and report the outcome the
    /// strictly greater count dictates. Meant to be called once neither
    /// player has a legal move; the grid need not be full.
    pub fn check_outcome(board: &Board) -> (outcome: Outcome)
        requires
            board.well_formed(),
        ensures
            outcome == outcome_spec(board@),
            outcome == Outcome::Won(Player::Black)
                <==> piece_count(board@, Player::Black) > piece_count(board@, Player::White),
            outcome == Outcome::Won(Player::White)
                <==> piece_count(board@, Player::White) > piece_count(board@, Player::Black),
            outcome == Outcome::Tie
                <==> piece_count(board@, Player::Black) == piece_count(board@, Player::White),
    {
        let (black_count, white_count) = crate::game::count_pieces(board);
        if black_count > white_count {
            Outcome::Won(Player::Black)
        } else if white_count > black_count {
            Outcome::Won(Player::White)
        } else {
            Outcome::Tie
        }
    }
}

} // verus!
