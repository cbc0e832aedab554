//! Walking the rays of a piece over the board.
//!
//! One primitive serves every piece: it walks each given direction up to a
//! number of steps, takes empty squares and enemy-held squares as asked, and
//! stops a ray at the first piece it meets.

use vstd::prelude::*;
use crate::game::{BoardState, Player};
use crate::geometry::{
    get_steps, lemma_on_board_between, lemma_off_board_stays, lemma_steps_shape, step_on_board,
    step_square, steps_spec, Direction,
};

verus! {

impl BoardState {
    /// Whether the square `k` steps from `pos` in direction `d` is empty.
    pub open spec fn step_empty(self, pos: int, d: Direction, k: int) -> bool {
        self.at(step_square(pos, d, k)) is None
    }

    /// Whether every square strictly between `pos` and the square `k` steps
    /// away is empty.
    pub open spec fn clear_path(self, pos: int, d: Direction, k: int) -> bool {
        forall|j: int| 1 <= j < k ==> #[trigger] self.step_empty(pos, d, j)
    }

    /// Whether a ray from `pos` gets as far as the square `k` steps away:
    /// the square is on the board and nothing stands in between.
    pub open spec fn reaches(self, pos: int, d: Direction, k: int) -> bool {
        &&& 1 <= k
        &&& step_on_board(pos, d, k)
        &&& self.clear_path(pos, d, k)
    }

    /// Whether the square `k` steps from `pos` is a target of the ray: the
    /// ray reaches it, and it is empty where empty squares are asked for, or
    /// held by the enemy of `mover` where captures are asked for.
    pub open spec fn ray_hit(
        self,
        pos: int,
        d: Direction,
        k: int,
        to_empty: bool,
        to_capture: bool,
        mover: Player,
    ) -> bool {
        &&& self.reaches(pos, d, k)
        &&& match self.at(step_square(pos, d, k)) {
            None => to_empty,
            Some((_, p)) => to_capture && p != mover,
        }
    }

    /// The targets of one ray at distances `1..=max`, nearest first, each
    /// with its distance.
    pub open spec fn ray_targets(
        self,
        pos: int,
        d: Direction,
        max: int,
        to_empty: bool,
        to_capture: bool,
        mover: Player,
    ) -> Seq<(usize, usize)>
        decreases max,
    {
        if max <= 0 {
            Seq::empty()
        } else {
            let nearer = self.ray_targets(pos, d, max - 1, to_empty, to_capture, mover);
            if self.ray_hit(pos, d, max, to_empty, to_capture, mover) {
                nearer.push((step_square(pos, d, max) as usize, max as usize))
            } else {
                nearer
            }
        }
    }

    /// The targets of the rays in all of `dirs`, one direction after the
    /// other in the order given.
    pub open spec fn far_targets(
        self,
        pos: int,
        dirs: Seq<Direction>,
        max: int,
        to_empty: bool,
        to_capture: bool,
        mover: Player,
    ) -> Seq<(usize, usize)>
        decreases dirs.len(),
    {
        if dirs.len() == 0 {
            Seq::empty()
        } else {
            self.far_targets(pos, dirs.drop_last(), max, to_empty, to_capture, mover)
                + self.ray_targets(pos, dirs.last(), max, to_empty, to_capture, mover)
        }
    }

    /// Whether `e` is the target at distance `k` of the ray in direction `d`.
    pub open spec fn is_target(
        self,
        pos: int,
        d: Direction,
        k: int,
        to_empty: bool,
        to_capture: bool,
        mover: Player,
        e: (usize, usize),
    ) -> bool {
        &&& self.ray_hit(pos, d, k, to_empty, to_capture, mover)
        &&& e == (step_square(pos, d, k) as usize, k as usize)
    }

    /// Beyond a piece, and beyond the edge of the board, a ray reaches
    /// nothing.
    pub proof fn lemma_ray_ends(self, pos: int, d: Direction, b: int, k: int)
        requires
            0 <= pos < 64,
            1 <= b < k,
            !self.step_empty(pos, d, b) || !step_on_board(pos, d, b),
        ensures
            !self.reaches(pos, d, k),
    {
        if !step_on_board(pos, d, b) {
            lemma_off_board_stays(pos, d, b, k);
        }
    }

    /// Where no farther square is a target, a larger limit adds nothing.
    pub proof fn lemma_ray_targets_stable(
        self,
        pos: int,
        d: Direction,
        a: int,
        b: int,
        to_empty: bool,
        to_capture: bool,
        mover: Player,
    )
        requires
            0 <= a <= b,
            forall|k: int| a < k <= b ==> !#[trigger] self.reaches(pos, d, k),
        ensures
            self.ray_targets(pos, d, b, to_empty, to_capture, mover) == self.ray_targets(
                pos,
                d,
                a,
                to_empty,
                to_capture,
                mover,
            ),
        decreases b,
    {
        if b > a {
            self.lemma_ray_targets_stable(pos, d, a, b - 1, to_empty, to_capture, mover);
            assert(!self.reaches(pos, d, b));
        }
    }

    /// What one ray holds: exactly its targets at distances `1..=max`.
    pub proof fn lemma_ray_targets_members(
        self,
        pos: int,
        d: Direction,
        max: int,
        to_empty: bool,
        to_capture: bool,
        mover: Player,
    )
        ensures
            forall|e: (usize, usize)|
                #![trigger self.ray_targets(pos, d, max, to_empty, to_capture, mover).contains(e)]
                self.ray_targets(pos, d, max, to_empty, to_capture, mover).contains(e) <==> (
                exists|k: int|
                    1 <= k <= max && #[trigger] self.is_target(
                        pos,
                        d,
                        k,
                        to_empty,
                        to_capture,
                        mover,
                        e,
                    )),
        decreases max,
    {
        let all = self.ray_targets(pos, d, max, to_empty, to_capture, mover);
        if max <= 0 {
            assert forall|e: (usize, usize)| !all.contains(e) by {}
        } else {
            self.lemma_ray_targets_members(pos, d, max - 1, to_empty, to_capture, mover);
            let nearer = self.ray_targets(pos, d, max - 1, to_empty, to_capture, mover);
            let hit = self.ray_hit(pos, d, max, to_empty, to_capture, mover);
            let last = (step_square(pos, d, max) as usize, max as usize);
            assert forall|e: (usize, usize)| all.contains(e) <==> (exists|k: int|
                1 <= k <= max && #[trigger] self.is_target(
                    pos,
                    d,
                    k,
                    to_empty,
                    to_capture,
                    mover,
                    e,
                )) by {
                if all.contains(e) {
                    let i = choose|i: int| 0 <= i < all.len() && all[i] == e;
                    if i < nearer.len() {
                        assert(nearer[i] == e);
                        assert(nearer.contains(e));
                        let k = choose|k: int|
                            1 <= k <= max - 1 && #[trigger] self.is_target(
                                pos,
                                d,
                                k,
                                to_empty,
                                to_capture,
                                mover,
                                e,
                            );
                        assert(self.is_target(pos, d, k, to_empty, to_capture, mover, e));
                    } else {
                        assert(self.is_target(pos, d, max, to_empty, to_capture, mover, e));
                    }
                }
                if exists|k: int|
                    1 <= k <= max && #[trigger] self.is_target(
                        pos,
                        d,
                        k,
                        to_empty,
                        to_capture,
                        mover,
                        e,
                    ) {
                    let k = choose|k: int|
                        1 <= k <= max && #[trigger] self.is_target(
                            pos,
                            d,
                            k,
                            to_empty,
                            to_capture,
                            mover,
                            e,
                        );
                    if k < max {
                        assert(nearer.contains(e));
                        let i = choose|i: int| 0 <= i < nearer.len() && nearer[i] == e;
                        assert(all[i] == e);
                    } else {
                        assert(hit);
                        assert(all[all.len() - 1] == e);
                    }
                }
            }
        }
    }

    /// Whether `e` is a target of one of the rays from `pos` in `dirs`.
    pub open spec fn far_member(
        self,
        pos: int,
        dirs: Seq<Direction>,
        max: int,
        to_empty: bool,
        to_capture: bool,
        mover: Player,
        e: (usize, usize),
    ) -> bool {
        exists|i: int, k: int|
            0 <= i < dirs.len() && 1 <= k <= max && #[trigger] self.is_target(
                pos,
                dirs[i],
                k,
                to_empty,
                to_capture,
                mover,
                e,
            )
    }

    /// What the rays hold together: exactly the targets of each.
    pub proof fn lemma_far_targets_members(
        self,
        pos: int,
        dirs: Seq<Direction>,
        max: int,
        to_empty: bool,
        to_capture: bool,
        mover: Player,
    )
        ensures
            forall|e: (usize, usize)|
                #![trigger self.far_targets(pos, dirs, max, to_empty, to_capture, mover).contains(e)]
                self.far_targets(pos, dirs, max, to_empty, to_capture, mover).contains(e)
                    <==> self.far_member(pos, dirs, max, to_empty, to_capture, mover, e),
        decreases dirs.len(),
    {
        let all = self.far_targets(pos, dirs, max, to_empty, to_capture, mover);
        if dirs.len() == 0 {
            assert forall|e: (usize, usize)| !all.contains(e) by {}
        } else {
            let front = dirs.drop_last();
            let d = dirs.last();
            self.lemma_far_targets_members(pos, front, max, to_empty, to_capture, mover);
            self.lemma_ray_targets_members(pos, d, max, to_empty, to_capture, mover);
            let head = self.far_targets(pos, front, max, to_empty, to_capture, mover);
            let tail = self.ray_targets(pos, d, max, to_empty, to_capture, mover);
            assert forall|e: (usize, usize)| all.contains(e) <==> self.far_member(
                pos,
                dirs,
                max,
                to_empty,
                to_capture,
                mover,
                e,
            ) by {
                if all.contains(e) {
                    let n = choose|n: int| 0 <= n < all.len() && all[n] == e;
                    if n < head.len() {
                        assert(head[n] == e);
                        assert(head.contains(e));
                        let (i, k) = choose|i: int, k: int|
                            0 <= i < front.len() && 1 <= k <= max && #[trigger] self.is_target(
                                pos,
                                front[i],
                                k,
                                to_empty,
                                to_capture,
                                mover,
                                e,
                            );
                        assert(self.is_target(pos, dirs[i], k, to_empty, to_capture, mover, e));
                    } else {
                        assert(tail[n - head.len()] == e);
                        assert(tail.contains(e));
                        let k = choose|k: int|
                            1 <= k <= max && #[trigger] self.is_target(
                                pos,
                                d,
                                k,
                                to_empty,
                                to_capture,
                                mover,
                                e,
                            );
                        assert(self.is_target(
                            pos,
                            dirs[dirs.len() - 1],
                            k,
                            to_empty,
                            to_capture,
                            mover,
                            e,
                        ));
                    }
                }
                if self.far_member(pos, dirs, max, to_empty, to_capture, mover, e) {
                    let (i, k) = choose|i: int, k: int|
                        0 <= i < dirs.len() && 1 <= k <= max && #[trigger] self.is_target(
                            pos,
                            dirs[i],
                            k,
                            to_empty,
                            to_capture,
                            mover,
                            e,
                        );
                    if i < front.len() {
                        assert(self.is_target(pos, front[i], k, to_empty, to_capture, mover, e));
                        assert(head.contains(e));
                        let n = choose|n: int| 0 <= n < head.len() && head[n] == e;
                        assert(all[n] == e);
                    } else {
                        assert(tail.contains(e));
                        let n = choose|n: int| 0 <= n < tail.len() && tail[n] == e;
                        assert(all[head.len() + n] == e);
                    }
                }
            }
        }
    }

    /// Every target lies on the board.
    pub proof fn lemma_far_targets_on_board(
        self,
        pos: int,
        dirs: Seq<Direction>,
        max: int,
        to_empty: bool,
        to_capture: bool,
        mover: Player,
    )
        requires
            0 <= pos < 64,
        ensures
            forall|n: int|
                0 <= n < self.far_targets(pos, dirs, max, to_empty, to_capture, mover).len() ==> (
                #[trigger] self.far_targets(pos, dirs, max, to_empty, to_capture, mover)[n]).0 < 64,
    {
        let all = self.far_targets(pos, dirs, max, to_empty, to_capture, mover);
        self.lemma_far_targets_members(pos, dirs, max, to_empty, to_capture, mover);
        assert forall|n: int| 0 <= n < all.len() implies (#[trigger] all[n]).0 < 64 by {
            let e = all[n];
            assert(all.contains(e));
            let (i, k) = choose|i: int, k: int|
                0 <= i < dirs.len() && 1 <= k <= max && #[trigger] self.is_target(
                    pos,
                    dirs[i],
                    k,
                    to_empty,
                    to_capture,
                    mover,
                    e,
                );
            lemma_on_board_between(pos, dirs[i], k, k);
        }
    }

    /// The squares that a piece of `player` on `pos` reaches along
    /// `directions`, each with its distance, direction by direction and
    /// nearest first. A ray goes at most `max_steps` steps and ends at the
    /// first piece it meets; an empty square counts where `move_to_empty` is
    /// set, a square held by the other side where `move_to_capture` is set.
    pub fn get_far_moves(
        &self,
        pos: usize,
        directions: &[Direction],
        max_steps: usize,
        move_to_empty: bool,
        move_to_capture: bool,
        player: Player,
    ) -> (positions: Vec<(usize, usize)>)
        requires
            pos < 64,
        ensures
            positions@ == self.far_targets(
                pos as int,
                directions@,
                max_steps as int,
                move_to_empty,
                move_to_capture,
                player,
            ),
            forall|n: int| 0 <= n < positions@.len() ==> (#[trigger] positions@[n]).0 < 64,
    {
        let mut positions: Vec<(usize, usize)> = Vec::with_capacity(28);
        let mut n: usize = 0;
        assert(directions@.take(0) =~= Seq::<Direction>::empty());
        while n < directions.len()
            invariant
                pos < 64,
                n <= directions.len(),
                positions@ == self.far_targets(
                    pos as int,
                    directions@.take(n as int),
                    max_steps as int,
                    move_to_empty,
                    move_to_capture,
                    player,
                ),
            decreases directions.len() - n,
        {
            let direction = directions[n];
            let steps = get_steps(pos, direction, max_steps);
            let ghost before = positions@;
            proof {
                lemma_steps_shape(pos as int, direction, max_steps as int);
            }
            let mut i: usize = 0;
            loop
                invariant_except_break
                    forall|j: int| 1 <= j <= i ==> #[trigger] self.step_empty(pos as int, direction, j),
                    positions@ == before + self.ray_targets(
                        pos as int,
                        direction,
                        i as int,
                        move_to_empty,
                        move_to_capture,
                        player,
                    ),
                invariant
                    pos < 64,
                    i <= steps.len(),
                    steps@ == steps_spec(pos as int, direction, max_steps as int),
                    steps.len() <= max_steps,
                    forall|k: int|
                        1 <= k <= steps.len() ==> #[trigger] step_on_board(pos as int, direction, k),
                    forall|j: int|
                        0 <= j < steps.len() ==> (#[trigger] steps@[j]) == (
                            step_square(pos as int, direction, j + 1) as usize,
                            (j + 1) as usize,
                        ),
                    steps.len() < max_steps ==> !step_on_board(
                        pos as int,
                        direction,
                        (steps.len() + 1) as int,
                    ),
                ensures
                    positions@ == before + self.ray_targets(
                        pos as int,
                        direction,
                        max_steps as int,
                        move_to_empty,
                        move_to_capture,
                        player,
                    ),
                decreases steps.len() - i,
            {
                if i >= steps.len() {
                    proof {
                        assert forall|k: int| i < k <= max_steps implies !#[trigger] self.reaches(
                            pos as int,
                            direction,
                            k,
                        ) by {
                            if k > i + 1 {
                                self.lemma_ray_ends(pos as int, direction, i + 1, k);
                            }
                        }
                        self.lemma_ray_targets_stable(
                            pos as int,
                            direction,
                            i as int,
                            max_steps as int,
                            move_to_empty,
                            move_to_capture,
                            player,
                        );
                    }
                    break ;
                }
                let (new_pos, distance) = steps[i];
                proof {
                    assert(step_on_board(pos as int, direction, i + 1));
                    lemma_on_board_between(pos as int, direction, i + 1, i + 1);
                    assert(self.reaches(pos as int, direction, i + 1));
                }
                let ghost nearer = self.ray_targets(
                    pos as int,
                    direction,
                    i as int,
                    move_to_empty,
                    move_to_capture,
                    player,
                );
                match self.fields[new_pos] {
                    None => {
                        if move_to_empty {
                            positions.push((new_pos, distance));
                        }
                        proof {
                            assert(positions@ =~= before + self.ray_targets(
                                pos as int,
                                direction,
                                i + 1,
                                move_to_empty,
                                move_to_capture,
                                player,
                            ));
                        }
                    },
                    Some((_, p)) => {
                        if move_to_capture && p != player {
                            positions.push((new_pos, distance));
                        }
                        proof {
                            assert(positions@ =~= before + self.ray_targets(
                                pos as int,
                                direction,
                                i + 1,
                                move_to_empty,
                                move_to_capture,
                                player,
                            ));
                            assert forall|k: int| i + 1 < k <= max_steps implies !#[trigger] self.reaches(
                                pos as int,
                                direction,
                                k,
                            ) by {
                                self.lemma_ray_ends(pos as int, direction, i + 1, k);
                            }
                            self.lemma_ray_targets_stable(
                                pos as int,
                                direction,
                                i + 1,
                                max_steps as int,
                                move_to_empty,
                                move_to_capture,
                                player,
                            );
                        }
                        break ;
                    },
                }
                i = i + 1;
            }
            proof {
                assert(directions@.take(n + 1).drop_last() =~= directions@.take(n as int));
                assert(directions@.take(n + 1).last() == direction);
            }
            n = n + 1;
        }
        proof {
            assert(directions@.take(n as int) =~= directions@);
            self.lemma_far_targets_on_board(
                pos as int,
                directions@,
                max_steps as int,
                move_to_empty,
                move_to_capture,
                player,
            );
        }
        positions
    }
}

} // verus!
