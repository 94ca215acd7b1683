//! The solver: exhaustive two-player zero-sum minimax over the full
//! remaining game tree, no pruning. It computes the game-theoretic value
//! of a position for a designated player and a move achieving it.

use vstd::prelude::*;
use crate::board::{
    Board, Player, empty_count, lemma_board_len, lemma_cell_counts, lemma_empty_count_update,
    spec_full, spec_winner,
};

verus! {

broadcast use lemma_board_len;

/// The accumulator's starting score: the worst conceivable for the side
/// whose candidate moves are being compared, so that the first legal
/// candidate always replaces it.
pub open spec fn init_score(current: Player, ai: Player) -> int {
    if current == ai {
        i32::MIN as int
    } else {
        i32::MAX as int
    }
}

/// Whether a child score strictly improves on the best seen so far: the
/// solver's own side maximises, the opponent minimises. Ties never
/// improve, so of equally good moves the first in index order is kept.
pub open spec fn improves(current: Player, ai: Player, child: int, best: int) -> bool {
    if current == ai {
        child > best
    } else {
        child < best
    }
}

/// The minimax evaluation of a position: a score of 1 when the solver's
/// player `ai` has won, -1 when the opponent has won, 0 for a draw, and
/// otherwise the best score reachable for the side `current` to move,
/// paired with the first move in increasing index order achieving it.
/// Terminal positions carry no move.
pub open spec fn minimax_spec(s: Seq<Option<Player>>, current: Player, ai: Player) -> (
    int,
    Option<usize>,
)
    decreases empty_count(s), 10int,
{
    if spec_winner(s) is Some {
        if spec_winner(s) == Some(ai) {
            (1, None)
        } else {
            (-1, None)
        }
    } else if spec_full(s) {
        (0, None)
    } else {
        best_from(s, current, ai, 0, init_score(current, ai), None)
    }
}

/// Folds the minimax evaluation of the children over the candidate cells
/// `i..9` of a nine-cell position, carrying the best score seen and the
/// move that produced it.
pub open spec fn best_from(
    s: Seq<Option<Player>>,
    current: Player,
    ai: Player,
    i: int,
    best: int,
    bm: Option<usize>,
) -> (int, Option<usize>)
    decreases empty_count(s), 9 - i,
        via best_from_decreases
{
    if s.len() != 9 || i < 0 || i >= 9 {
        (best, bm)
    } else if s[i] is Some {
        best_from(s, current, ai, i + 1, best, bm)
    } else {
        let child = minimax_spec(s.update(i, Some(current)), current.spec_other(), ai).0;
        if improves(current, ai, child, best) {
            best_from(s, current, ai, i + 1, child, Some(i as usize))
        } else {
            best_from(s, current, ai, i + 1, best, bm)
        }
    }
}

#[via_fn]
proof fn best_from_decreases(
    s: Seq<Option<Player>>,
    current: Player,
    ai: Player,
    i: int,
    best: int,
    bm: Option<usize>,
) {
    if s.len() == 9 && 0 <= i < 9 && s[i] is None {
        lemma_empty_count_update(s, i, current, 9);
    }
}

/// The minimax score of the position reached by `current` marking cell
/// `k`, seen from `ai`'s side with the turn passing to the opponent.
pub open spec fn move_value(s: Seq<Option<Player>>, current: Player, ai: Player, k: int) -> int {
    minimax_spec(s.update(k, Some(current)), current.spec_other(), ai).0
}

/// Minimax scores always lie between a loss and a win for `ai`.
pub proof fn lemma_value_bounded(s: Seq<Option<Player>>, current: Player, ai: Player)
    requires
        s.len() == 9,
    ensures
        -1 <= minimax_spec(s, current, ai).0 <= 1,
    decreases empty_count(s), 10int,
{
    if spec_winner(s) is None && !spec_full(s) {
        lemma_best_from_props(s, current, ai, 0, init_score(current, ai), None);
    }
}

/// The fold over candidate cells `i..9` ends at a legal move whose score
/// it returns, and no legal move of the whole position strictly improves
/// on that score, provided the accumulator already says as much about
/// the cells below `i`.
proof fn lemma_best_from_props(
    s: Seq<Option<Player>>,
    current: Player,
    ai: Player,
    i: int,
    best: int,
    bm: Option<usize>,
)
    requires
        s.len() == 9,
        0 <= i <= 9,
        spec_winner(s) is None,
        !spec_full(s),
        bm is Some ==> bm->0 < 9 && s[bm->0 as int] is None && best == move_value(
            s,
            current,
            ai,
            bm->0 as int,
        ) && -1 <= best <= 1,
        bm is None ==> best == init_score(current, ai),
        forall|k: int|
            0 <= k < i && (#[trigger] s[k]) is None ==> bm is Some && !improves(
                current,
                ai,
                move_value(s, current, ai, k),
                best,
            ),
    ensures
        ({
            let (v, m) = best_from(s, current, ai, i, best, bm);
            &&& m is Some
            &&& m->0 < 9 && s[m->0 as int] is None
            &&& v == move_value(s, current, ai, m->0 as int)
            &&& -1 <= v <= 1
            &&& forall|k: int|
                0 <= k < 9 && (#[trigger] s[k]) is None ==> !improves(
                    current,
                    ai,
                    move_value(s, current, ai, k),
                    v,
                )
        }),
    decreases empty_count(s), 9 - i,
{
    if i == 9 {
        assert(!(forall|j: int| 0 <= j < 9 ==> s[j] is Some));
        let j = choose|j: int| !(0 <= j < 9 ==> s[j] is Some);
        assert(0 <= j < 9 && s[j] is None);
        assert(bm is Some && !improves(current, ai, move_value(s, current, ai, j), best));
    } else if s[i] is Some {
        assert forall|k: int| 0 <= k < i + 1 && (#[trigger] s[k]) is None implies bm is Some
            && !improves(current, ai, move_value(s, current, ai, k), best) by {
            assert(k < i);
        }
        lemma_best_from_props(s, current, ai, i + 1, best, bm);
    } else {
        let child = move_value(s, current, ai, i);
        lemma_empty_count_update(s, i, current, 9);
        lemma_value_bounded(s.update(i, Some(current)), current.spec_other(), ai);
        assert(-1 <= child <= 1);
        if improves(current, ai, child, best) {
            lemma_best_from_props(s, current, ai, i + 1, child, Some(i as usize));
        } else {
            if bm is None {
                assert(improves(current, ai, child, best));
            }
            assert(!improves(current, ai, move_value(s, current, ai, i), best));
            lemma_best_from_props(s, current, ai, i + 1, best, bm);
        }
    }
}

/// The solver's choice is optimal: on a position that is not yet decided
/// the evaluation names a legal move, that move attains the position's
/// minimax value, and no legal move scores strictly better for `ai`.
pub proof fn lemma_solver_optimal(s: Seq<Option<Player>>, ai: Player)
    requires
        s.len() == 9,
        spec_winner(s) is None,
        !spec_full(s),
    ensures
        ({
            let (v, m) = minimax_spec(s, ai, ai);
            &&& m is Some
            &&& m->0 < 9 && s[m->0 as int] is None
            &&& v == move_value(s, ai, ai, m->0 as int)
            &&& -1 <= v <= 1
            &&& forall|k: int|
                0 <= k < 9 && s[k] is None ==> #[trigger] move_value(s, ai, ai, k) <= v
        }),
{
    lemma_best_from_props(s, ai, ai, 0, init_score(ai, ai), None);
}

/// The solver never walks into a forced loss: whenever some legal move
/// keeps the position's value at a draw or better for `ai`, the move the
/// evaluation picks leads to a position whose value is a draw or better
/// for `ai` as well.
pub proof fn lemma_never_loses(s: Seq<Option<Player>>, ai: Player, k: int)
    requires
        s.len() == 9,
        spec_winner(s) is None,
        !spec_full(s),
        0 <= k < 9,
        s[k] is None,
        move_value(s, ai, ai, k) >= 0,
    ensures
        ({
            let m = minimax_spec(s, ai, ai).1;
            &&& m is Some
            &&& move_value(s, ai, ai, m->0 as int) >= 0
        }),
{
    lemma_solver_optimal(s, ai);
}

/// Evaluates the position for `ai` with `current` to move, returning the
/// minimax score and the first best move in increasing index order.
fn minimax(board: &Board, current: Player, ai: Player) -> (r: (i32, Option<usize>))
    ensures
        (r.0 as int, r.1) == minimax_spec(board@, current, ai),
    decreases empty_count(board@),
{
    let w = board.winner();
    if let Some(p) = w {
        if p == ai {
            return (1, None);
        } else {
            return (-1, None);
        }
    }
    if board.is_full() {
        return (0, None);
    }
    let ghost s = board@;
    let mut best_score: i32 = if current == ai {
        i32::MIN
    } else {
        i32::MAX
    };
    let mut best_move: Option<usize> = None;
    let mut i: usize = 0;
    while i < 9
        invariant
            i <= 9,
            s == board@,
            spec_winner(s) is None,
            !spec_full(s),
            best_from(s, current, ai, 0, init_score(current, ai), None) == best_from(
                s,
                current,
                ai,
                i as int,
                best_score as int,
                best_move,
            ),
        decreases 9 - i,
    {
        if board.cell(i).is_none() {
            let mut next = *board;
            next.set_cell(i, current);
            proof {
                lemma_empty_count_update(s, i as int, current, 9);
            }
            let sub = minimax(&next, current.other(), ai);
            if current == ai {
                if sub.0 > best_score {
                    best_score = sub.0;
                    best_move = Some(i);
                }
            } else {
                if sub.0 < best_score {
                    best_score = sub.0;
                    best_move = Some(i);
                }
            }
        }
        i += 1;
    }
    (best_score, best_move)
}

/// Picks the move the solver's player `ai` should make: the first move in
/// increasing index order whose minimax score is best for `ai`. Returns
/// nothing exactly when the position is already terminal (someone has
/// won, or the board is full).
pub fn find_best_move(board: &Board, ai: Player) -> (r: Option<usize>)
    ensures
        r == minimax_spec(board@, ai, ai).1,
        r is None <==> (spec_winner(board@) is Some || spec_full(board@)),
        r is Some ==> r->0 < 9 && board@[r->0 as int] is None,
{
    proof {
        if spec_winner(board@) is None && !spec_full(board@) {
            lemma_solver_optimal(board@, ai);
        }
    }
    let sub = minimax(board, ai, ai);
    sub.1
}

} // verus!
