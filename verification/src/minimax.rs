//! Game-tree search: minimax, and alpha-beta pruning.
//!
//! Both searches give the value of a position at a depth, the successors
//! that reach this value, and the number of positions looked at. White looks
//! for the greatest value, Black for the least. No choice is made among
//! successors of equal value: that is left to the caller.

use vstd::prelude::*;
use crate::game::{BoardState, GameState, PieceType, Player};

verus! {

/// Whether value `a` is better for `player` than value `b`.
pub open spec fn better(player: Player, a: int, b: int) -> bool {
    match player {
        Player::White => a > b,
        Player::Black => a < b,
    }
}

/// The worst value there is for `player`; it is the value of being
/// checkmated.
pub open spec fn worst(player: Player) -> i32 {
    match player {
        Player::White => i32::MIN,
        Player::Black => i32::MAX,
    }
}

/// What a search gives.
pub struct Outcome {
    /// The value of the position.
    pub value: i32,
    /// The successors that reach the value, in the order of the moves.
    pub best: Seq<GameState>,
    /// The number of positions looked at.
    pub nodes: nat,
}

/// Whether `heuristic` computes the function `h` of the position:
/// whatever it returns for a position is the value of `h` there.
pub open spec fn computes<F: Fn(GameState) -> i32>(heuristic: F, h: spec_fn(GameState) -> i32) -> bool {
    forall|g: GameState, v: i32| call_ensures(heuristic, (g,), v) ==> v == h(g)
}

/// Whether `heuristic` can be asked about every well-formed position.
pub open spec fn accepts_positions<F: Fn(GameState) -> i32>(heuristic: F) -> bool {
    forall|g: GameState| g.wf() ==> call_requires(heuristic, (g,))
}

/// The heuristic that is 0 everywhere.
pub open spec fn flat() -> spec_fn(GameState) -> i32 {
    |g: GameState| 0i32
}

/// The number of positions in the tree below `g` down to `depth`: what a
/// minimax search looks at. It does not depend on the heuristic.
pub open spec fn tree_nodes(g: GameState, depth: nat) -> nat {
    minimax_spec(flat(), g, depth).nodes
}

/// What a position is worth without looking at its successors, where that
/// is decided: at depth 0 the heuristic value, after 150 quiet plies a draw,
/// and without a legal move the worst value for a mover in check and a draw
/// otherwise.
pub open spec fn settled_value(h: spec_fn(GameState) -> i32, g: GameState, depth: nat) -> Option<
    i32,
> {
    if depth == 0 {
        Some(h(g))
    } else if g.quiet_plies() >= 150 {
        Some(0i32)
    } else if g.legal_moves().len() == 0 {
        if g.board.in_check(g.mover()) {
            Some(worst(g.mover()))
        } else {
            Some(0i32)
        }
    } else {
        None
    }
}

/// The minimax search of `g` to `depth`.
pub open spec fn minimax_spec(h: spec_fn(GameState) -> i32, g: GameState, depth: nat) -> Outcome
    decreases depth, 1nat, 0nat,
{
    match settled_value(h, g, depth) {
        Some(value) => Outcome { value, best: Seq::empty(), nodes: 1 },
        None => minimax_fold(h, g, depth, g.legal_moves()),
    }
}

/// The minimax search of `g` over the successors `children`, each searched
/// to `depth - 1`: the best of their values for the mover, the children that
/// reach it, and one more than the positions looked at below them.
pub open spec fn minimax_fold(
    h: spec_fn(GameState) -> i32,
    g: GameState,
    depth: nat,
    children: Seq<GameState>,
) -> Outcome
    decreases depth, 0nat, children.len(),
{
    if depth == 0 || children.len() == 0 {
        Outcome { value: worst(g.mover()), best: Seq::empty(), nodes: 1 }
    } else {
        let acc = minimax_fold(h, g, depth, children.drop_last());
        let child = children.last();
        let res = minimax_spec(h, child, (depth - 1) as nat);
        let nodes = acc.nodes + res.nodes;
        if better(g.mover(), res.value as int, acc.value as int) {
            Outcome { value: res.value, best: seq![child], nodes }
        } else if res.value == acc.value {
            Outcome { value: acc.value, best: acc.best.push(child), nodes }
        } else {
            Outcome { value: acc.value, best: acc.best, nodes }
        }
    }
}

/// Where an alpha-beta search stands among the successors of a position.
pub struct Scan {
    /// The best value found.
    pub value: i32,
    /// The successors that reached it.
    pub best: Seq<GameState>,
    /// The number of positions looked at.
    pub nodes: nat,
    /// The best value the mover is sure of, here or higher up.
    pub gamma: i32,
    /// Whether the search of the successors has been cut off.
    pub cut: bool,
}

/// The alpha-beta search of `g` to `depth`. `gamma` is the best value the
/// mover is sure of, `delta` the best the other side is sure of.
pub open spec fn alphabeta_spec(
    h: spec_fn(GameState) -> i32,
    g: GameState,
    depth: nat,
    gamma: i32,
    delta: i32,
) -> Outcome
    decreases depth, 1nat, 0nat,
{
    match settled_value(h, g, depth) {
        Some(value) => Outcome { value, best: Seq::empty(), nodes: 1 },
        None => {
            let scan = alphabeta_scan(h, g, depth, gamma, delta, g.legal_moves());
            Outcome { value: scan.value, best: scan.best, nodes: scan.nodes }
        },
    }
}

/// The alpha-beta search of `g` over the successors `children`, in their
/// order. Each is searched to `depth - 1` with the window turned round. A
/// value better than the best so far replaces it, and raises `gamma` if it
/// is better than that too; once `gamma` is better for the mover than
/// `delta`, the remaining children are left out. Equal values do not cut
/// off.
pub open spec fn alphabeta_scan(
    h: spec_fn(GameState) -> i32,
    g: GameState,
    depth: nat,
    gamma: i32,
    delta: i32,
    children: Seq<GameState>,
) -> Scan
    decreases depth, 0nat, children.len(),
{
    if depth == 0 || children.len() == 0 {
        Scan { value: worst(g.mover()), best: Seq::empty(), nodes: 1, gamma, cut: false }
    } else {
        let acc = alphabeta_scan(h, g, depth, gamma, delta, children.drop_last());
        if acc.cut {
            acc
        } else {
            let child = children.last();
            let res = alphabeta_spec(h, child, (depth - 1) as nat, delta, acc.gamma);
            let nodes = acc.nodes + res.nodes;
            if better(g.mover(), res.value as int, acc.value as int) {
                if better(g.mover(), res.value as int, acc.gamma as int) {
                    Scan {
                        value: res.value,
                        best: seq![child],
                        nodes,
                        gamma: res.value,
                        cut: better(g.mover(), res.value as int, delta as int),
                    }
                } else {
                    Scan { value: res.value, best: seq![child], nodes, gamma: acc.gamma, cut: false }
                }
            } else if res.value == acc.value {
                Scan { best: acc.best.push(child), nodes, ..acc }
            } else {
                Scan { nodes, ..acc }
            }
        }
    }
}

/// The alpha-beta search of `g` to `depth` with the widest window.
pub open spec fn alphabeta_init_spec(h: spec_fn(GameState) -> i32, g: GameState, depth: nat) -> Outcome {
    alphabeta_spec(h, g, depth, worst(g.mover()), worst(g.mover().other()))
}

/// The positions looked at below a part of the children are among those
/// looked at below all of them.
pub proof fn lemma_minimax_fold_nodes(
    h: spec_fn(GameState) -> i32,
    g: GameState,
    depth: nat,
    children: Seq<GameState>,
    n: int,
)
    requires
        0 <= n <= children.len(),
        depth > 0,
    ensures
        minimax_fold(h, g, depth, children.take(n)).nodes <= minimax_fold(
            h,
            g,
            depth,
            children,
        ).nodes,
        n < children.len() ==> minimax_fold(h, g, depth, children.take(n)).nodes + minimax_spec(
            h,
            children[n],
            (depth - 1) as nat,
        ).nodes <= minimax_fold(h, g, depth, children).nodes,
    decreases children.len(),
{
    if n == children.len() {
        assert(children.take(n) =~= children);
    } else {
        let front = children.drop_last();
        assert(front.take(n) =~= children.take(n));
        if n < front.len() {
            lemma_minimax_fold_nodes(h, g, depth, front, n);
        } else {
            assert(front.take(n) =~= front);
        }
    }
}

/// The positions looked at up to a part of the children are among those
/// looked at in all; and once the search is cut off, nothing changes.
pub proof fn lemma_alphabeta_scan_prefix(
    h: spec_fn(GameState) -> i32,
    g: GameState,
    depth: nat,
    gamma: i32,
    delta: i32,
    children: Seq<GameState>,
    n: int,
)
    requires
        0 <= n <= children.len(),
        depth > 0,
    ensures
        alphabeta_scan(h, g, depth, gamma, delta, children.take(n)).nodes <= alphabeta_scan(
            h,
            g,
            depth,
            gamma,
            delta,
            children,
        ).nodes,
        alphabeta_scan(h, g, depth, gamma, delta, children.take(n)).cut ==> alphabeta_scan(
            h,
            g,
            depth,
            gamma,
            delta,
            children,
        ) == alphabeta_scan(h, g, depth, gamma, delta, children.take(n)),
        n < children.len() && !alphabeta_scan(h, g, depth, gamma, delta, children.take(n)).cut
            ==> alphabeta_scan(h, g, depth, gamma, delta, children.take(n)).nodes + alphabeta_spec(
            h,
            children[n],
            (depth - 1) as nat,
            delta,
            alphabeta_scan(h, g, depth, gamma, delta, children.take(n)).gamma,
        ).nodes <= alphabeta_scan(h, g, depth, gamma, delta, children).nodes,
    decreases children.len(),
{
    if n == children.len() {
        assert(children.take(n) =~= children);
    } else {
        let front = children.drop_last();
        assert(front.take(n) =~= children.take(n));
        if n < front.len() {
            lemma_alphabeta_scan_prefix(h, g, depth, gamma, delta, front, n);
        } else {
            assert(front.take(n) =~= front);
        }
    }
}

/// A value as the mover sees it: greater is better.
pub open spec fn key(player: Player, x: int) -> int {
    match player {
        Player::White => x,
        Player::Black => -x,
    }
}

/// What an alpha-beta result `r` says of the minimax value `v` of the same
/// position: inside the window the two are equal; a result worse than
/// `gamma` is no worse than the value, and a result better than `delta` no
/// better.
pub open spec fn window_sound(player: Player, gamma: int, delta: int, r: int, v: int) -> bool {
    &&& key(player, r) < key(player, gamma) ==> key(player, v) <= key(player, r)
    &&& key(player, gamma) <= key(player, r) <= key(player, delta) ==> v == r
    &&& key(player, r) > key(player, delta) ==> key(player, v) >= key(player, r)
}

/// The minimax value over children is the best of their values, and every
/// child that reaches it is among the best.
pub proof fn lemma_minimax_fold_best(
    h: spec_fn(GameState) -> i32,
    g: GameState,
    depth: nat,
    children: Seq<GameState>,
)
    requires
        depth > 0,
    ensures
        forall|i: int|
            0 <= i < children.len() ==> key(
                g.mover(),
                minimax_spec(h, #[trigger] children[i], (depth - 1) as nat).value as int,
            ) <= key(g.mover(), minimax_fold(h, g, depth, children).value as int),
        children.len() > 0 ==> exists|i: int|
            0 <= i < children.len() && minimax_spec(
                h,
                #[trigger] children[i],
                (depth - 1) as nat,
            ).value == minimax_fold(h, g, depth, children).value,
        children.len() == 0 ==> minimax_fold(h, g, depth, children).value == worst(g.mover()),
        forall|i: int|
            0 <= i < children.len() && minimax_spec(
                h,
                #[trigger] children[i],
                (depth - 1) as nat,
            ).value == minimax_fold(h, g, depth, children).value ==> minimax_fold(
                h,
                g,
                depth,
                children,
            ).best.contains(children[i]),
    decreases children.len(),
{
    let p = g.mover();
    let d1 = (depth - 1) as nat;
    let f = minimax_fold(h, g, depth, children);
    if children.len() > 0 {
        let front = children.drop_last();
        let child = children.last();
        lemma_minimax_fold_best(h, g, depth, front);
        let acc = minimax_fold(h, g, depth, front);
        let res = minimax_spec(h, child, d1);
        assert forall|i: int| 0 <= i < children.len() implies key(
            p,
            minimax_spec(h, #[trigger] children[i], d1).value as int,
        ) <= key(p, f.value as int) by {
            if i < front.len() {
                assert(front[i] == children[i]);
            }
        }
        if front.len() > 0 {
            let w = choose|i: int|
                0 <= i < front.len() && minimax_spec(h, #[trigger] front[i], d1).value == acc.value;
            assert(front[w] == children[w]);
        }
        assert(children[children.len() - 1] == child);
        assert forall|i: int|
            0 <= i < children.len() && minimax_spec(h, #[trigger] children[i], d1).value
                == f.value implies f.best.contains(children[i]) by {
            if better(p, res.value as int, acc.value as int) {
                if i < front.len() {
                    assert(front[i] == children[i]);
                    assert(false);
                }
                assert(f.best[0] == child);
            } else if i < front.len() {
                assert(front[i] == children[i]);
                assert(acc.best.contains(front[i]));
                let j = choose|j: int| 0 <= j < acc.best.len() && acc.best[j] == front[i];
                assert(f.best[j] == children[i]);
            } else {
                assert(f.best[f.best.len() - 1] == child);
            }
        }
    }
}

/// What holds of an alpha-beta scan over children: while it is not cut off,
/// `gamma` is the better of the first `gamma` and the best value, no value
/// of a child is better than the best value, and once the best value has
/// reached the first `gamma` it is the value of a child, and the best
/// children found reach it in minimax too. When it is cut off, the best
/// value is beyond `delta`, and some child is worth at least as much.
pub open spec fn scan_sound(
    h: spec_fn(GameState) -> i32,
    g: GameState,
    depth: nat,
    gamma: i32,
    delta: i32,
    children: Seq<GameState>,
) -> bool {
    let p = g.mover();
    let d1 = (depth - 1) as nat;
    let s = alphabeta_scan(h, g, depth, gamma, delta, children);
    let kb = key(p, s.value as int);
    if s.cut {
        &&& kb > key(p, delta as int)
        &&& exists|i: int|
            0 <= i < children.len() && key(
                p,
                minimax_spec(h, #[trigger] children[i], d1).value as int,
            ) >= kb
    } else {
        &&& key(p, s.gamma as int) == (if kb > key(p, gamma as int) {
            kb
        } else {
            key(p, gamma as int)
        })
        &&& key(p, s.gamma as int) <= key(p, delta as int)
        &&& forall|i: int|
            0 <= i < children.len() ==> key(
                p,
                minimax_spec(h, #[trigger] children[i], d1).value as int,
            ) <= kb
        &&& (children.len() > 0 && kb >= key(p, gamma as int) ==> exists|i: int|
            0 <= i < children.len() && minimax_spec(h, #[trigger] children[i], d1).value
                == s.value)
        &&& (kb >= key(p, gamma as int) ==> forall|x: GameState| #[trigger]
            s.best.contains(x) ==> exists|i: int|
                0 <= i < children.len() && #[trigger] children[i] == x && minimax_spec(
                    h,
                    children[i],
                    d1,
                ).value == s.value)
        &&& (children.len() == 0 ==> s.value == worst(p))
    }
}

/// An alpha-beta scan over legal successors is sound.
pub proof fn lemma_alphabeta_scan_sound(
    h: spec_fn(GameState) -> i32,
    g: GameState,
    depth: nat,
    gamma: i32,
    delta: i32,
    children: Seq<GameState>,
)
    requires
        depth > 0,
        g.ply + depth <= usize::MAX,
        key(g.mover(), gamma as int) <= key(g.mover(), delta as int),
        forall|i: int|
            0 <= i < children.len() ==> {
                &&& (#[trigger] children[i]).wf()
                &&& children[i].ply == g.ply + 1
            },
    ensures
        scan_sound(h, g, depth, gamma, delta, children),
    decreases depth, 0nat, children.len(),
{
    let p = g.mover();
    let d1 = (depth - 1) as nat;
    let s = alphabeta_scan(h, g, depth, gamma, delta, children);
    if children.len() > 0 {
        let front = children.drop_last();
        let child = children.last();
        assert(child == children[children.len() - 1]);
        assert forall|i: int| 0 <= i < front.len() implies {
            &&& (#[trigger] front[i]).wf()
            &&& front[i].ply == g.ply + 1
        } by {
            assert(front[i] == children[i]);
        }
        lemma_alphabeta_scan_sound(h, g, depth, gamma, delta, front);
        let acc = alphabeta_scan(h, g, depth, gamma, delta, front);
        if acc.cut {
            let w = choose|i: int|
                0 <= i < front.len() && key(
                    p,
                    minimax_spec(h, #[trigger] front[i], d1).value as int,
                ) >= key(p, acc.value as int);
            assert(front[w] == children[w]);
        } else {
            assert(child.mover() == p.other());
            lemma_alphabeta_sound(h, child, d1, delta, acc.gamma);
            let res = alphabeta_spec(h, child, d1, delta, acc.gamma);
            let v = minimax_spec(h, child, d1).value;
            let kr = key(p, res.value as int);
            let kv = key(p, v as int);
            assert(window_sound(p.other(), delta as int, acc.gamma as int, res.value as int, v as int));
            assert(key(p.other(), res.value as int) == -kr);
            assert(key(p.other(), v as int) == -kv);
            assert(key(p.other(), delta as int) == -key(p, delta as int));
            assert(key(p.other(), acc.gamma as int) == -key(p, acc.gamma as int));
            if s.cut {
                assert(kv >= kr);
            } else {
                assert(kv <= kr);
                assert forall|i: int| 0 <= i < children.len() implies key(
                    p,
                    minimax_spec(h, #[trigger] children[i], d1).value as int,
                ) <= key(p, s.value as int) by {
                    if i < front.len() {
                        assert(front[i] == children[i]);
                    }
                }
                if key(p, s.value as int) >= key(p, gamma as int) {
                    if better(p, res.value as int, acc.value as int) {
                        assert(v == res.value);
                        assert forall|x: GameState| #[trigger] s.best.contains(x) implies exists|
                            i: int,
                        |
                            0 <= i < children.len() && #[trigger] children[i] == x && minimax_spec(
                                h,
                                children[i],
                                d1,
                            ).value == s.value by {
                            assert(x == child);
                        }
                    } else if res.value == acc.value {
                        assert(v == res.value);
                        assert forall|x: GameState| #[trigger] s.best.contains(x) implies exists|
                            i: int,
                        |
                            0 <= i < children.len() && #[trigger] children[i] == x && minimax_spec(
                                h,
                                children[i],
                                d1,
                            ).value == s.value by {
                            let j = choose|j: int| 0 <= j < s.best.len() && s.best[j] == x;
                            if j < acc.best.len() {
                                assert(acc.best[j] == x);
                                assert(acc.best.contains(x));
                                let i = choose|i: int|
                                    0 <= i < front.len() && #[trigger] front[i] == x && minimax_spec(
                                        h,
                                        front[i],
                                        d1,
                                    ).value == acc.value;
                                assert(children[i] == x);
                            } else {
                                assert(x == child);
                            }
                        }
                    } else {
                        assert(front.len() > 0);
                        let w = choose|i: int|
                            0 <= i < front.len() && minimax_spec(h, #[trigger] front[i], d1).value
                                == acc.value;
                        assert(front[w] == children[w]);
                        assert forall|x: GameState| #[trigger] s.best.contains(x) implies exists|
                            i: int,
                        |
                            0 <= i < children.len() && #[trigger] children[i] == x && minimax_spec(
                                h,
                                children[i],
                                d1,
                            ).value == s.value by {
                            assert(acc.best.contains(x));
                            let i = choose|i: int|
                                0 <= i < front.len() && #[trigger] front[i] == x && minimax_spec(
                                    h,
                                    front[i],
                                    d1,
                                ).value == acc.value;
                            assert(children[i] == x);
                        }
                    }
                }
            }
        }
    }
}

/// An alpha-beta search says of the minimax value what its window allows:
/// inside the window it gives the minimax value, and successors that reach
/// it in minimax too; outside, a bound on the minimax value.
pub proof fn lemma_alphabeta_sound(
    h: spec_fn(GameState) -> i32,
    g: GameState,
    depth: nat,
    gamma: i32,
    delta: i32,
)
    requires
        g.wf(),
        g.ply + depth <= usize::MAX,
        key(g.mover(), gamma as int) <= key(g.mover(), delta as int),
    ensures
        window_sound(
            g.mover(),
            gamma as int,
            delta as int,
            alphabeta_spec(h, g, depth, gamma, delta).value as int,
            minimax_spec(h, g, depth).value as int,
        ),
        key(g.mover(), gamma as int) <= key(
            g.mover(),
            alphabeta_spec(h, g, depth, gamma, delta).value as int,
        ) <= key(g.mover(), delta as int) ==> forall|x: GameState| #[trigger]
            alphabeta_spec(h, g, depth, gamma, delta).best.contains(x) ==> minimax_spec(
                h,
                g,
                depth,
            ).best.contains(x),
    decreases depth, 1nat, 0nat,
{
    let p = g.mover();
    if settled_value(h, g, depth) is None {
        let children = g.legal_moves();
        let d1 = (depth - 1) as nat;
        g.lemma_legal_moves_wf();
        lemma_alphabeta_scan_sound(h, g, depth, gamma, delta, children);
        lemma_minimax_fold_best(h, g, depth, children);
        let s = alphabeta_scan(h, g, depth, gamma, delta, children);
        let f = minimax_fold(h, g, depth, children);
        let kb = key(p, s.value as int);
        let kv = key(p, f.value as int);
        if s.cut {
            let w = choose|i: int|
                0 <= i < children.len() && key(
                    p,
                    minimax_spec(h, #[trigger] children[i], d1).value as int,
                ) >= kb;
        } else {
            let j = choose|i: int|
                0 <= i < children.len() && minimax_spec(h, #[trigger] children[i], d1).value
                    == f.value;
            assert(kv <= kb);
            if kb >= key(p, gamma as int) {
                let w = choose|i: int|
                    0 <= i < children.len() && minimax_spec(h, #[trigger] children[i], d1).value
                        == s.value;
                assert(kb <= kv);
                assert(s.value == f.value);
                assert forall|x: GameState| #[trigger] s.best.contains(x) implies f.best.contains(
                    x,
                ) by {
                    let i = choose|i: int|
                        0 <= i < children.len() && #[trigger] children[i] == x && minimax_spec(
                            h,
                            children[i],
                            d1,
                        ).value == s.value;
                }
            }
        }
    } else {
        assert(alphabeta_spec(h, g, depth, gamma, delta).best =~= Seq::<GameState>::empty());
    }
}

/// Alpha-beta with the widest window finds the minimax value, and every
/// successor it gives as best is best in minimax too.
pub proof fn lemma_alphabeta_init_agrees(h: spec_fn(GameState) -> i32, g: GameState, depth: nat)
    requires
        g.wf(),
        g.ply + depth <= usize::MAX,
    ensures
        alphabeta_init_spec(h, g, depth).value == minimax_spec(h, g, depth).value,
        forall|x: GameState| #[trigger]
            alphabeta_init_spec(h, g, depth).best.contains(x) ==> minimax_spec(
                h,
                g,
                depth,
            ).best.contains(x),
{
    lemma_alphabeta_sound(h, g, depth, worst(g.mover()), worst(g.mover().other()));
}

/// Pruning never adds work: an alpha-beta scan looks at no more positions
/// than minimax does over the same children.
pub proof fn lemma_alphabeta_scan_nodes(
    h: spec_fn(GameState) -> i32,
    g: GameState,
    depth: nat,
    gamma: i32,
    delta: i32,
    children: Seq<GameState>,
)
    requires
        depth > 0,
    ensures
        alphabeta_scan(h, g, depth, gamma, delta, children).nodes <= minimax_fold(
            h,
            g,
            depth,
            children,
        ).nodes,
    decreases depth, 0nat, children.len(),
{
    if children.len() > 0 {
        let front = children.drop_last();
        lemma_alphabeta_scan_nodes(h, g, depth, gamma, delta, front);
        let acc = alphabeta_scan(h, g, depth, gamma, delta, front);
        lemma_alphabeta_nodes(h, children.last(), (depth - 1) as nat, delta, acc.gamma);
    }
}

/// Pruning never adds work: an alpha-beta search looks at no more
/// positions than the minimax search of the same position to the same
/// depth, whatever its window.
pub proof fn lemma_alphabeta_nodes(
    h: spec_fn(GameState) -> i32,
    g: GameState,
    depth: nat,
    gamma: i32,
    delta: i32,
)
    ensures
        alphabeta_spec(h, g, depth, gamma, delta).nodes <= minimax_spec(h, g, depth).nodes,
    decreases depth, 1nat, 0nat,
{
    if settled_value(h, g, depth) is None {
        lemma_alphabeta_scan_nodes(h, g, depth, gamma, delta, g.legal_moves());
    }
}

/// The value of a piece in tenths of a pawn.
pub open spec fn piece_value(piece: PieceType) -> int {
    match piece {
        PieceType::InitKing | PieceType::King => 0,
        PieceType::Queen => 90,
        PieceType::InitRook | PieceType::Rook => 50,
        PieceType::Bishop | PieceType::Knight => 30,
        PieceType::InitPawn | PieceType::Pawn => 10,
    }
}

/// The value of a piece in the balance: counted for White, against Black.
pub open spec fn signed_value(pp: (PieceType, Player)) -> int {
    match pp.1 {
        Player::White => piece_value(pp.0),
        Player::Black => -piece_value(pp.0),
    }
}

/// The balance of the listed pieces.
pub open spec fn material_of(pieces: Seq<(PieceType, Player)>) -> int
    decreases pieces.len(),
{
    if pieces.len() == 0 {
        0
    } else {
        material_of(pieces.drop_last()) + signed_value(pieces.last())
    }
}

/// The balance of material on the board: the values of White's pieces less
/// the values of Black's.
pub open spec fn material(board: BoardState) -> int {
    material_of(board.pieces_below(64))
}

/// The balance of material lies within 90 for each piece.
pub proof fn lemma_material_bound(pieces: Seq<(PieceType, Player)>)
    ensures
        -90 * pieces.len() <= material_of(pieces) <= 90 * pieces.len(),
    decreases pieces.len(),
{
    if pieces.len() > 0 {
        lemma_material_bound(pieces.drop_last());
    }
}

/// No more pieces are listed than squares looked at.
pub proof fn lemma_pieces_below_len(board: BoardState, n: int)
    requires
        0 <= n,
    ensures
        board.pieces_below(n).len() <= n,
    decreases n,
{
    if n > 0 {
        lemma_pieces_below_len(board, n - 1);
    }
}

/// The balance of material of a position: the sum of the values of White's
/// pieces less that of Black's, with 90 for a queen, 50 for a rook, 30 for a
/// bishop or knight, 10 for a pawn and nothing for the king.
pub fn weighted_piececount(game: GameState) -> (sum: i32)
    ensures
        sum == material(game.board),
{
    let mut sum: i32 = 0;
    let pieces = game.board.get_pieces();
    let mut n: usize = 0;
    proof {
        lemma_pieces_below_len(game.board, 64);
        assert(pieces@.take(0) =~= Seq::empty());
    }
    while n < pieces.len()
        invariant
            n <= pieces.len(),
            pieces.len() <= 64,
            sum == material_of(pieces@.take(n as int)),
            pieces@ == game.board.pieces_below(64),
        decreases pieces.len() - n,
    {
        let (piece, player) = pieces[n];
        let factor: i32 = match player {
            Player::White => 1,
            Player::Black => -1,
        };
        let value: i32 = match piece {
            PieceType::InitKing => 0,
            PieceType::King => 0,
            PieceType::Queen => 90,
            PieceType::InitRook => 50,
            PieceType::Rook => 50,
            PieceType::Bishop => 30,
            PieceType::Knight => 30,
            PieceType::InitPawn => 10,
            PieceType::Pawn => 10,
        };
        proof {
            lemma_material_bound(pieces@.take(n as int));
            assert(pieces@.take(n + 1).drop_last() =~= pieces@.take(n as int));
        }
        sum += factor * value;
        n = n + 1;
    }
    assert(pieces@.take(n as int) =~= pieces@);
    sum
}

/// The balance of material as a function of the position.
pub open spec fn material_fn() -> spec_fn(GameState) -> i32 {
    |g: GameState| material(g.board) as i32
}

/// `weighted_piececount` computes the balance of material, and can be
/// asked about every position.
pub proof fn lemma_material_is_heuristic()
    ensures
        computes(weighted_piececount, material_fn()),
        accepts_positions(weighted_piececount),
{
    assert forall|g: GameState, v: i32| call_ensures(weighted_piececount, (g,), v) implies v
        == material_fn()(g) by {
        assert(v == material(g.board));
    }
}

/// The count of positions is the same whatever the heuristic.
pub proof fn lemma_nodes_any_heuristic_fold(
    h: spec_fn(GameState) -> i32,
    g: GameState,
    depth: nat,
    children: Seq<GameState>,
)
    ensures
        minimax_fold(h, g, depth, children).nodes == minimax_fold(flat(), g, depth, children).nodes,
    decreases depth, 0nat, children.len(),
{
    if depth > 0 && children.len() > 0 {
        lemma_nodes_any_heuristic_fold(h, g, depth, children.drop_last());
        lemma_nodes_any_heuristic(h, children.last(), (depth - 1) as nat);
    }
}

/// The count of positions is the same whatever the heuristic.
pub proof fn lemma_nodes_any_heuristic(h: spec_fn(GameState) -> i32, g: GameState, depth: nat)
    ensures
        minimax_spec(h, g, depth).nodes == tree_nodes(g, depth),
    decreases depth, 1nat, 0nat,
{
    if settled_value(h, g, depth) is None {
        lemma_nodes_any_heuristic_fold(h, g, depth, g.legal_moves());
    }
}

/// The minimax search of a position to `depth`: its value, the successors
/// that reach it, and the number of positions looked at. The value and the
/// successors are those of the minimax search with whatever function of
/// the position the heuristic computes.
pub fn minimax(game_state: GameState, depth: usize, heuristic: &impl Fn(GameState) -> i32) -> (r: (
    i32,
    Vec<GameState>,
    u64,
))
    requires
        game_state.wf(),
        accepts_positions(*heuristic),
        game_state.ply + depth <= usize::MAX,
        tree_nodes(game_state, depth as nat) <= u64::MAX,
    ensures
        r.2 == tree_nodes(game_state, depth as nat),
        forall|h: spec_fn(GameState) -> i32| #[trigger]
            computes(*heuristic, h) ==> {
                &&& r.0 == minimax_spec(h, game_state, depth as nat).value
                &&& r.1@ == minimax_spec(h, game_state, depth as nat).best
            },
    decreases depth,
{
    if depth == 0 {
        return (heuristic(game_state), Vec::new(), 1);
    }
    if game_state.fifty_move_rule_draw() {
        return (0, Vec::new(), 1);
    }
    let new_states = game_state.get_legal_moves();
    if new_states.len() == 0 {
        if game_state.board.king_in_check(game_state.turn()) {
            match game_state.turn() {
                Player::White => return (i32::MIN, Vec::new(), 1),
                Player::Black => return (i32::MAX, Vec::new(), 1),
            }
        } else {
            return (0, Vec::new(), 1);
        }
    }
    let white = match game_state.turn() {
        Player::White => true,
        Player::Black => false,
    };
    let mut best_val: i32 = if white { i32::MIN } else { i32::MAX };
    let mut actions: Vec<GameState> = Vec::new();
    let mut num_nodes: u64 = 1;
    let mut n: usize = 0;
    proof {
        assert(new_states@.take(0) =~= Seq::empty());
    }
    while n < new_states.len()
        invariant
            n <= new_states.len(),
            depth > 0,
            accepts_positions(*heuristic),
            white == (game_state.mover() == Player::White),
            game_state.ply + depth <= usize::MAX,
            new_states@ == game_state.legal_moves(),
            forall|i: int|
                0 <= i < new_states@.len() ==> {
                    &&& (#[trigger] new_states@[i]).wf()
                    &&& new_states@[i].ply == game_state.ply + 1
                },
            minimax_fold(flat(), game_state, depth as nat, new_states@).nodes <= u64::MAX,
            num_nodes == minimax_fold(
                flat(),
                game_state,
                depth as nat,
                new_states@.take(n as int),
            ).nodes,
            forall|h: spec_fn(GameState) -> i32| #[trigger]
                computes(*heuristic, h) ==> {
                    &&& best_val == minimax_fold(
                        h,
                        game_state,
                        depth as nat,
                        new_states@.take(n as int),
                    ).value
                    &&& actions@ == minimax_fold(
                        h,
                        game_state,
                        depth as nat,
                        new_states@.take(n as int),
                    ).best
                },
        decreases new_states.len() - n,
    {
        let new_state = new_states[n];
        let ghost before_val = best_val;
        let ghost before_actions = actions@;
        proof {
            lemma_minimax_fold_nodes(flat(), game_state, depth as nat, new_states@, n as int);
            lemma_minimax_fold_nodes(flat(), game_state, depth as nat, new_states@, n + 1);
            assert(new_states@.take(n + 1).drop_last() =~= new_states@.take(n as int));
        }
        let minimax_res = minimax(new_state, depth - 1, heuristic);
        num_nodes = num_nodes + minimax_res.2;
        let is_better = if white {
            minimax_res.0 > best_val
        } else {
            minimax_res.0 < best_val
        };
        if is_better {
            best_val = minimax_res.0;
            actions = Vec::new();
            actions.push(new_state);
        } else if minimax_res.0 == best_val {
            actions.push(new_state);
        }
        proof {
            assert forall|h: spec_fn(GameState) -> i32| #[trigger]
                computes(*heuristic, h) implies {
                &&& best_val == minimax_fold(
                    h,
                    game_state,
                    depth as nat,
                    new_states@.take(n + 1),
                ).value
                &&& actions@ == minimax_fold(
                    h,
                    game_state,
                    depth as nat,
                    new_states@.take(n + 1),
                ).best
            } by {
                let acc = minimax_fold(h, game_state, depth as nat, new_states@.take(n as int));
                assert(before_val == acc.value && before_actions == acc.best);
                assert(minimax_res.0 == minimax_spec(h, new_state, (depth - 1) as nat).value);
            }
        }
        n = n + 1;
    }
    proof {
        assert(new_states@.take(n as int) =~= new_states@);
        assert forall|h: spec_fn(GameState) -> i32| #[trigger]
            computes(*heuristic, h) implies settled_value(h, game_state, depth as nat) is None by {}
    }
    (best_val, actions, num_nodes)
}

/// The alpha-beta search of a position to `depth`: its value within the
/// window, the successors that reach it, and the number of positions looked
/// at. `gamma` is the best value the side to move is sure of, `delta` the
/// best value the other side is sure of. The result is that of the
/// alpha-beta search with whatever function of the position the heuristic
/// computes.
pub fn alphabeta(
    game_state: GameState,
    depth: usize,
    gamma: i32,
    delta: i32,
    heuristic: &impl Fn(GameState) -> i32,
) -> (r: (i32, Vec<GameState>, u64))
    requires
        game_state.wf(),
        accepts_positions(*heuristic),
        game_state.ply + depth <= usize::MAX,
        tree_nodes(game_state, depth as nat) <= u64::MAX,
    ensures
        r.2 <= tree_nodes(game_state, depth as nat),
        forall|h: spec_fn(GameState) -> i32| #[trigger]
            computes(*heuristic, h) ==> {
                &&& r.0 == alphabeta_spec(h, game_state, depth as nat, gamma, delta).value
                &&& r.1@ == alphabeta_spec(h, game_state, depth as nat, gamma, delta).best
                &&& r.2 == alphabeta_spec(h, game_state, depth as nat, gamma, delta).nodes
            },
    decreases depth,
{
    if depth == 0 {
        return (heuristic(game_state), Vec::new(), 1);
    }
    if game_state.fifty_move_rule_draw() {
        return (0, Vec::new(), 1);
    }
    let new_states = game_state.get_legal_moves();
    if new_states.len() == 0 {
        if game_state.board.king_in_check(game_state.turn()) {
            match game_state.turn() {
                Player::White => return (i32::MIN, Vec::new(), 1),
                Player::Black => return (i32::MAX, Vec::new(), 1),
            }
        } else {
            return (0, Vec::new(), 1);
        }
    }
    let white = match game_state.turn() {
        Player::White => true,
        Player::Black => false,
    };
    let mut gamma = gamma;
    let ghost gamma0 = gamma;
    let mut best_val: i32 = if white { i32::MIN } else { i32::MAX };
    let mut actions: Vec<GameState> = Vec::new();
    let mut num_nodes: u64 = 1;
    let mut n: usize = 0;
    proof {
        assert(new_states@.take(0) =~= Seq::empty());
    }
    loop
        invariant_except_break
            forall|h: spec_fn(GameState) -> i32| #[trigger]
                computes(*heuristic, h) ==> {
                    let scan = alphabeta_scan(
                        h,
                        game_state,
                        depth as nat,
                        gamma0,
                        delta,
                        new_states@.take(n as int),
                    );
                    &&& !scan.cut
                    &&& best_val == scan.value
                    &&& actions@ == scan.best
                    &&& num_nodes == scan.nodes
                    &&& gamma == scan.gamma
                },
        invariant
            n <= new_states.len(),
            depth > 0,
            accepts_positions(*heuristic),
            white == (game_state.mover() == Player::White),
            game_state.ply + depth <= usize::MAX,
            new_states@ == game_state.legal_moves(),
            forall|i: int|
                0 <= i < new_states@.len() ==> {
                    &&& (#[trigger] new_states@[i]).wf()
                    &&& new_states@[i].ply == game_state.ply + 1
                },
            minimax_fold(flat(), game_state, depth as nat, new_states@).nodes <= u64::MAX,
            num_nodes <= minimax_fold(
                flat(),
                game_state,
                depth as nat,
                new_states@.take(n as int),
            ).nodes,
        ensures
            num_nodes <= minimax_fold(flat(), game_state, depth as nat, new_states@).nodes,
            forall|h: spec_fn(GameState) -> i32| #[trigger]
                computes(*heuristic, h) ==> {
                    let scan = alphabeta_scan(
                        h,
                        game_state,
                        depth as nat,
                        gamma0,
                        delta,
                        new_states@,
                    );
                    &&& best_val == scan.value
                    &&& actions@ == scan.best
                    &&& num_nodes == scan.nodes
                },
        decreases new_states.len() - n,
    {
        if n >= new_states.len() {
            proof {
                assert(new_states@.take(n as int) =~= new_states@);
            }
            break ;
        }
        let new_state = new_states[n];
        let ghost before_val = best_val;
        let ghost before_actions = actions@;
        let ghost before_nodes = num_nodes;
        let ghost before_gamma = gamma;
        proof {
            lemma_minimax_fold_nodes(flat(), game_state, depth as nat, new_states@, n as int);
            lemma_minimax_fold_nodes(flat(), game_state, depth as nat, new_states@, n + 1);
            assert(new_states@.take(n + 1).drop_last() =~= new_states@.take(n as int));
        }
        let van = alphabeta(new_state, depth - 1, delta, gamma, heuristic);
        num_nodes = num_nodes + van.2;
        let mut cut = false;
        let is_better = if white {
            van.0 > best_val
        } else {
            van.0 < best_val
        };
        if is_better {
            best_val = van.0;
            actions = Vec::new();
            actions.push(new_state);
            let raises = if white {
                best_val > gamma
            } else {
                best_val < gamma
            };
            if raises {
                gamma = best_val;
                // Equal values do not cut off: a successor that only ties
                // the bound may still be among the best at the root.
                cut = if white {
                    gamma > delta
                } else {
                    gamma < delta
                };
            }
        } else if van.0 == best_val {
            actions.push(new_state);
        }
        proof {
            assert forall|h: spec_fn(GameState) -> i32| #[trigger]
                computes(*heuristic, h) implies {
                let scan = alphabeta_scan(
                    h,
                    game_state,
                    depth as nat,
                    gamma0,
                    delta,
                    new_states@.take(n + 1),
                );
                &&& cut == scan.cut
                &&& best_val == scan.value
                &&& actions@ == scan.best
                &&& num_nodes == scan.nodes
                &&& gamma == scan.gamma
            } by {
                let acc = alphabeta_scan(
                    h,
                    game_state,
                    depth as nat,
                    gamma0,
                    delta,
                    new_states@.take(n as int),
                );
                assert(!acc.cut && before_val == acc.value && before_actions == acc.best
                    && before_nodes == acc.nodes && before_gamma == acc.gamma);
                let res = alphabeta_spec(h, new_state, (depth - 1) as nat, delta, acc.gamma);
                assert(van.0 == res.value && van.2 == res.nodes);
            }
        }
        n = n + 1;
        if cut {
            proof {
                assert forall|h: spec_fn(GameState) -> i32| #[trigger]
                    computes(*heuristic, h) implies {
                    let scan = alphabeta_scan(
                        h,
                        game_state,
                        depth as nat,
                        gamma0,
                        delta,
                        new_states@,
                    );
                    &&& best_val == scan.value
                    &&& actions@ == scan.best
                    &&& num_nodes == scan.nodes
                } by {
                    lemma_alphabeta_scan_prefix(
                        h,
                        game_state,
                        depth as nat,
                        gamma0,
                        delta,
                        new_states@,
                        n as int,
                    );
                }
                lemma_minimax_fold_nodes(flat(), game_state, depth as nat, new_states@, n as int);
            }
            break ;
        }
    }
    proof {
        assert forall|h: spec_fn(GameState) -> i32| #[trigger]
            computes(*heuristic, h) implies settled_value(h, game_state, depth as nat) is None by {}
    }
    (best_val, actions, num_nodes)
}

/// The alpha-beta search of a position to `depth` with the widest window.
/// It finds the value that minimax finds, and every successor that it gives
/// as best is best in minimax too.
pub fn alphabeta_init(game_state: GameState, depth: usize, heuristic: &impl Fn(GameState) -> i32) -> (r:
    (i32, Vec<GameState>, u64))
    requires
        game_state.wf(),
        accepts_positions(*heuristic),
        game_state.ply + depth <= usize::MAX,
        tree_nodes(game_state, depth as nat) <= u64::MAX,
    ensures
        r.2 <= tree_nodes(game_state, depth as nat),
        forall|h: spec_fn(GameState) -> i32| #[trigger]
            computes(*heuristic, h) ==> {
                &&& r.0 == alphabeta_init_spec(h, game_state, depth as nat).value
                &&& r.1@ == alphabeta_init_spec(h, game_state, depth as nat).best
                &&& r.2 == alphabeta_init_spec(h, game_state, depth as nat).nodes
                &&& r.0 == minimax_spec(h, game_state, depth as nat).value
                &&& forall|x: GameState| #[trigger]
                    r.1@.contains(x) ==> minimax_spec(h, game_state, depth as nat).best.contains(x)
            },
{
    proof {
        assert forall|h: spec_fn(GameState) -> i32| #[trigger]
            computes(*heuristic, h) implies {
            &&& alphabeta_init_spec(h, game_state, depth as nat).value == minimax_spec(
                h,
                game_state,
                depth as nat,
            ).value
            &&& forall|x: GameState| #[trigger]
                alphabeta_init_spec(h, game_state, depth as nat).best.contains(x) ==> minimax_spec(
                    h,
                    game_state,
                    depth as nat,
                ).best.contains(x)
        } by {
            lemma_alphabeta_init_agrees(h, game_state, depth as nat);
        }
    }
    let (alpha, beta) = (i32::MIN, i32::MAX);
    match game_state.turn() {
        Player::White => alphabeta(game_state, depth, alpha, beta, heuristic),
        Player::Black => alphabeta(game_state, depth, beta, alpha, heuristic),
    }
}

} // verus!
