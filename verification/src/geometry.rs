//! Squares, directions, and stepping along a ray.
//!
//! A square is an index `row * 8 + col` with row 0 as White's home rank. A
//! direction is a pair of row and column increments; the square `k` steps
//! away from `pos` has row `pos / 8 + k * d.0` and column `pos % 8 + k * d.1`.

use vstd::prelude::*;
use crate::game::Player;

verus! {

/// Row and column increments of one step.
pub type Direction = (isize, isize);

/// The four rook directions.
pub const STRAIGHT: [Direction; 4] = [(1, 0), (-1, 0), (0, 1), (0, -1)];

/// The four bishop directions.
pub const DIAGONAL: [Direction; 4] = [(1, 1), (1, -1), (-1, 1), (-1, -1)];

/// The eight directions of a queen or king.
pub const STRAIGHT_AND_DIAGONAL: [Direction; 8] = [
    (1, 0),
    (-1, 0),
    (0, 1),
    (0, -1),
    (1, 1),
    (1, -1),
    (-1, 1),
    (-1, -1),
];

/// The eight knight leaps.
pub const KNIGHT: [Direction; 8] = [
    (2, 1),
    (1, 2),
    (-1, 2),
    (-2, 1),
    (-2, -1),
    (-1, -2),
    (1, -2),
    (2, -1),
];

/// The direction in which a white pawn advances.
pub const WHITE_PAWN_MOVE: [Direction; 1] = [(1, 0)];

/// The direction in which a black pawn advances.
pub const BLACK_PAWN_MOVE: [Direction; 1] = [(-1, 0)];

/// The directions in which a white pawn captures.
pub const WHITE_PAWN_CAPTURE: [Direction; 2] = [(1, 1), (1, -1)];

/// The directions in which a black pawn captures.
pub const BLACK_PAWN_CAPTURE: [Direction; 2] = [(-1, 1), (-1, -1)];

/// Whether row and column lie on the board.
pub open spec fn on_board(row: int, col: int) -> bool {
    0 <= row < 8 && 0 <= col < 8
}

/// The row reached from `pos` after `k` steps in direction `d`.
pub open spec fn step_row(pos: int, d: Direction, k: int) -> int {
    pos / 8 + d.0 * k
}

/// The column reached from `pos` after `k` steps in direction `d`.
pub open spec fn step_col(pos: int, d: Direction, k: int) -> int {
    pos % 8 + d.1 * k
}

/// Whether `k` steps from `pos` in direction `d` end on the board.
pub open spec fn step_on_board(pos: int, d: Direction, k: int) -> bool {
    on_board(step_row(pos, d, k), step_col(pos, d, k))
}

/// The square `k` steps from `pos` in direction `d`.
pub open spec fn step_square(pos: int, d: Direction, k: int) -> int {
    step_row(pos, d, k) * 8 + step_col(pos, d, k)
}

/// The squares on the board at distances `1..=n` from `pos` in direction
/// `d`, each with its distance, nearest first.
pub open spec fn steps_spec(pos: int, d: Direction, n: int) -> Seq<(usize, usize)>
    decreases n,
{
    if n <= 0 {
        Seq::empty()
    } else {
        let nearer = steps_spec(pos, d, n - 1);
        if step_on_board(pos, d, n) {
            nearer.push((step_square(pos, d, n) as usize, n as usize))
        } else {
            nearer
        }
    }
}

/// The direction opposite to `d`.
pub open spec fn opposite(d: Direction) -> Direction {
    ((-d.0) as isize, (-d.1) as isize)
}

/// The last row for a pawn of `player`, where it is promoted.
pub open spec fn final_row(player: Player) -> int {
    match player {
        Player::White => 7,
        Player::Black => 0,
    }
}

/// The direction in which a pawn of `player` advances.
pub open spec fn pawn_move_dirs(player: Player) -> Seq<Direction> {
    match player {
        Player::White => WHITE_PAWN_MOVE@,
        Player::Black => BLACK_PAWN_MOVE@,
    }
}

/// The directions in which a pawn of `player` captures.
pub open spec fn pawn_capture_dirs(player: Player) -> Seq<Direction> {
    match player {
        Player::White => WHITE_PAWN_CAPTURE@,
        Player::Black => BLACK_PAWN_CAPTURE@,
    }
}

/// One more step adds the direction once.
pub proof fn lemma_step_next(pos: int, d: Direction, k: int)
    ensures
        step_row(pos, d, k + 1) == step_row(pos, d, k) + d.0,
        step_col(pos, d, k + 1) == step_col(pos, d, k) + d.1,
{
    assert(d.0 * (k + 1) == d.0 * k + d.0) by (nonlinear_arith);
    assert(d.1 * (k + 1) == d.1 * k + d.1) by (nonlinear_arith);
}

/// A ray that has left the board does not come back.
pub proof fn lemma_off_board_stays(pos: int, d: Direction, k: int, m: int)
    requires
        0 <= pos < 64,
        1 <= k <= m,
        !step_on_board(pos, d, k),
    ensures
        !step_on_board(pos, d, m),
{
    let r = pos / 8;
    let c = pos % 8;
    let d0 = d.0 as int;
    let d1 = d.1 as int;
    assert(!(0 <= r + d0 * m < 8 && 0 <= c + d1 * m < 8)) by (nonlinear_arith)
        requires
            0 <= r < 8,
            0 <= c < 8,
            1 <= k <= m,
            !(0 <= r + d0 * k < 8 && 0 <= c + d1 * k < 8),
    ;
}

/// Every square between a square of the board and a square of the board on
/// one ray lies on the board.
pub proof fn lemma_on_board_between(pos: int, d: Direction, j: int, k: int)
    requires
        0 <= pos < 64,
        0 <= j <= k,
        step_on_board(pos, d, k),
    ensures
        step_on_board(pos, d, j),
        0 <= step_square(pos, d, j) < 64,
        step_square(pos, d, j) / 8 == step_row(pos, d, j),
        step_square(pos, d, j) % 8 == step_col(pos, d, j),
{
    if j == 0 {
        assert(d.0 * 0 == 0);
        assert(d.1 * 0 == 0);
    } else if !step_on_board(pos, d, j) {
        lemma_off_board_stays(pos, d, j, k);
    }
}

/// Walking back from the square `k` steps away, in the opposite direction,
/// passes the same squares.
pub proof fn lemma_step_back(pos: int, d: Direction, k: int, j: int)
    requires
        0 <= pos < 64,
        0 <= j <= k,
        step_on_board(pos, d, k),
        -8 <= d.0 <= 8,
        -8 <= d.1 <= 8,
    ensures
        step_square(step_square(pos, d, k), opposite(d), j) == step_square(pos, d, k - j),
        step_on_board(step_square(pos, d, k), opposite(d), j),
{
    lemma_on_board_between(pos, d, k, k);
    lemma_on_board_between(pos, d, k - j, k);
    let d0 = d.0 as int;
    let d1 = d.1 as int;
    assert(d0 * k + (-d0) * j == d0 * (k - j)) by (nonlinear_arith);
    assert(d1 * k + (-d1) * j == d1 * (k - j)) by (nonlinear_arith);
}

/// The shape of `steps_spec`: the squares at distances `1..=len`, all on the
/// board, and the ray leaves the board right after them unless `n` stopped it.
pub proof fn lemma_steps_shape(pos: int, d: Direction, n: int)
    requires
        0 <= pos < 64,
        0 <= n,
    ensures
        steps_spec(pos, d, n).len() <= n,
        forall|k: int|
            1 <= k <= steps_spec(pos, d, n).len() ==> #[trigger] step_on_board(pos, d, k),
        forall|i: int|
            0 <= i < steps_spec(pos, d, n).len() ==> (#[trigger] steps_spec(pos, d, n)[i]) == (
                step_square(pos, d, i + 1) as usize,
                (i + 1) as usize,
            ),
        steps_spec(pos, d, n).len() < n ==> !step_on_board(
            pos,
            d,
            (steps_spec(pos, d, n).len() + 1) as int,
        ),
    decreases n,
{
    if n > 0 {
        lemma_steps_shape(pos, d, n - 1);
        let nearer = steps_spec(pos, d, n - 1);
        if step_on_board(pos, d, n) {
            if nearer.len() < n - 1 {
                lemma_off_board_stays(pos, d, (nearer.len() + 1) as int, n);
            }
        }
        let all = steps_spec(pos, d, n);
        assert forall|i: int| 0 <= i < all.len() implies (#[trigger] all[i]) == (
            step_square(pos, d, i + 1) as usize,
            (i + 1) as usize,
        ) by {
            if i < nearer.len() {
                assert(all[i] == nearer[i]);
            }
        }
    }
}

/// Once the ray has left the board, a larger limit adds nothing.
pub proof fn lemma_steps_stable(pos: int, d: Direction, a: int, b: int)
    requires
        0 <= pos < 64,
        0 <= a <= b,
        !step_on_board(pos, d, a + 1),
    ensures
        steps_spec(pos, d, b) == steps_spec(pos, d, a),
    decreases b,
{
    if b > a {
        lemma_steps_stable(pos, d, a, b - 1);
        lemma_off_board_stays(pos, d, a + 1, b);
    }
}

/// The square with the given row and column, if both are on the board.
pub fn pos_from_rowcol(row: isize, col: isize) -> (r: Option<usize>)
    ensures
        r == (if on_board(row as int, col as int) {
            Some((row * 8 + col) as usize)
        } else {
            None::<usize>
        }),
{
    if row >= 0 && row < 8 && col >= 0 && col < 8 {
        Some(row as usize * 8 + col as usize)
    } else {
        None
    }
}

/// The squares of the board at distances `1..=steps` from `pos` along
/// `direction`, each with its distance, nearest first. The walk ends at the
/// edge of the board.
pub fn get_steps(pos: usize, direction: Direction, steps: usize) -> (positions: Vec<(usize, usize)>)
    requires
        pos < 64,
    ensures
        positions@ == steps_spec(pos as int, direction, steps as int),
{
    let mut row: isize = (pos / 8) as isize;
    let mut col: isize = (pos % 8) as isize;
    let mut positions: Vec<(usize, usize)> = Vec::with_capacity(7);
    let mut step: usize = 0;
    proof {
        assert(direction.0 * 0 == 0);
        assert(direction.1 * 0 == 0);
    }
    while step < steps
        invariant
            pos < 64,
            step <= steps,
            row == step_row(pos as int, direction, step as int),
            col == step_col(pos as int, direction, step as int),
            on_board(row as int, col as int),
            positions@ == steps_spec(pos as int, direction, step as int),
        ensures
            positions@ == steps_spec(pos as int, direction, steps as int),
        decreases steps - step,
    {
        proof {
            lemma_step_next(pos as int, direction, step as int);
        }
        let next = match (row.checked_add(direction.0), col.checked_add(direction.1)) {
            (Some(new_row), Some(new_col)) => match pos_from_rowcol(new_row, new_col) {
                Some(new_pos) => Some((new_row, new_col, new_pos)),
                None => None,
            },
            _ => None,
        };
        match next {
            Some((new_row, new_col, new_pos)) => {
                step = step + 1;
                row = new_row;
                col = new_col;
                positions.push((new_pos, step));
            },
            None => {
                proof {
                    lemma_steps_stable(pos as int, direction, step as int, steps as int);
                }
                break ;
            },
        }
    }
    positions
}

/// The last row, the advance direction and the capture directions of a pawn
/// of `player`.
pub fn get_pawn_moves(player: Player) -> (r: (usize, &'static [Direction], &'static [Direction]))
    ensures
        r.0 == final_row(player),
        r.1@ == pawn_move_dirs(player),
        r.2@ == pawn_capture_dirs(player),
{
    match player {
        Player::White => (7, &WHITE_PAWN_MOVE, &WHITE_PAWN_CAPTURE),
        Player::Black => (0, &BLACK_PAWN_MOVE, &BLACK_PAWN_CAPTURE),
    }
}

} // verus!
