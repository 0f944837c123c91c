use vstd::prelude::*;

use crate::bit_board::BitBoard;
use crate::eval::{WIN_POINT, LOSE_POINT, judge_score, eval_score, judge, eval_function};
use crate::moves::{moved_board, make_moved_board, lemma_moved_board_non_negative};
use crate::movegen::{
    move_list, next_move_list, lemma_move_list_positive, lemma_move_gen_defined,
};

verus! {

/// The result of a search: the move chosen and the score found for it.
pub struct Node {
    /// The move chosen, `(0, 0)` when none was.
    pub best_move: (i32, i32),
    /// The score of the position for the player to move.
    pub point: i32,
}

/// The deepest search whose scores fit in an `i32`.
pub open spec fn max_depth() -> int {
    i32::MAX - WIN_POINT
}

/// The score of a decided position found `depth` plies before the search
/// horizon: a win scores more, and a loss less, the sooner it comes.
pub open spec fn decided_score(j: int, depth: nat) -> int {
    if j == WIN_POINT {
        j + depth
    } else {
        j - depth
    }
}

/// The result of the alpha-beta search of `b` (reached from `bef`) for the
/// player `is_player1` names, `depth` plies deep, in the window
/// `(alpha, beta)`: the best move found and its score.
pub open spec fn alpha_beta(
    b: BitBoard,
    bef: BitBoard,
    is_player1: bool,
    depth: nat,
    alpha: int,
    beta: int,
) -> ((i32, i32), int)
    decreases depth, 1int, 0int,
{
    if depth == 0 {
        ((0i32, 0i32), eval_score(b, bef, is_player1))
    } else {
        let j = judge_score(b, bef, is_player1);
        if j != 0 {
            ((0i32, 0i32), decided_score(j, depth))
        } else {
            alpha_beta_loop(b, is_player1, depth, move_list(b, is_player1), 0, alpha, beta, (0i32, 0i32))
        }
    }
}

/// The alpha-beta search over the moves `moves[i..]`, with `alpha` and the
/// best move found so far: each move's score is the negated score of the
/// reply searched in the window `(-beta, -alpha)`; a better score raises
/// `alpha`, and the search stops once `alpha` reaches `beta`.
pub open spec fn alpha_beta_loop(
    b: BitBoard,
    is_player1: bool,
    depth: nat,
    moves: Seq<(i32, i32)>,
    i: nat,
    alpha: int,
    beta: int,
    best: (i32, i32),
) -> ((i32, i32), int)
    decreases depth, 0int, moves.len() - i,
{
    if i >= moves.len() || depth == 0 {
        (best, alpha)
    } else {
        let m = moves[i as int];
        let child = alpha_beta(moved_board(b, m, is_player1), b, !is_player1, (depth - 1) as nat, -beta, -alpha);
        let point = -child.1;
        let alpha2 = if point > alpha { point } else { alpha };
        let best2 = if point > alpha { m } else { best };
        if alpha2 >= beta {
            (best2, alpha2)
        } else {
            alpha_beta_loop(b, is_player1, depth, moves, i + 1, alpha2, beta, best2)
        }
    }
}

/// Negamax with alpha-beta pruning: the best move of the player
/// `is_player1` names on `board` (reached from `bef_board`), searched
/// `depth` plies deep in the window `(alpha, beta)`, and its score.
pub fn nega_alpha(
    board: &BitBoard,
    bef_board: &BitBoard,
    is_player1: bool,
    depth: i32,
    alpha: i32,
    beta: i32,
) -> (r: Node)
    requires
        0 <= depth <= max_depth(),
        depth > 0 ==> alpha > i32::MIN && beta > i32::MIN,
        board.non_negative(),
    ensures
        (r.best_move, r.point as int) == alpha_beta(
            *board,
            *bef_board,
            is_player1,
            depth as nat,
            alpha as int,
            beta as int,
        ),
        r.point > i32::MIN,
    decreases depth,
{
    let mut alpha = alpha;
    let mut best_move: (i32, i32) = (0, 0);
    if depth == 0 {
        let point: i32 = eval_function(board, bef_board, is_player1);
        return Node { best_move, point };
    }
    let mut point = judge(board, bef_board, is_player1);
    if point != 0 {
        if point == WIN_POINT {
            point += depth;
        } else {
            point -= depth;
        }
        return Node { best_move, point };
    }
    proof {
        lemma_move_gen_defined(*board, is_player1);
        lemma_move_list_positive(*board, is_player1);
    }
    let moves = next_move_list(board, is_player1);
    let ghost alpha0 = alpha as int;
    let mut i: usize = 0;
    while i < moves.len()
        invariant_except_break
            alpha_beta(*board, *bef_board, is_player1, depth as nat, alpha0, beta as int)
                == alpha_beta_loop(
                *board,
                is_player1,
                depth as nat,
                moves@,
                i as nat,
                alpha as int,
                beta as int,
                best_move,
            ),
        invariant
            0 < depth <= max_depth(),
            beta > i32::MIN,
            board.non_negative(),
            moves@ == move_list(*board, is_player1),
            judge_score(*board, *bef_board, is_player1) == 0,
            forall|k: int|
                0 <= k < moves@.len() ==> (#[trigger] moves@[k]).0 > 0 && moves@[k].1 > 0,
            i <= moves@.len(),
            alpha as int >= alpha0,
            alpha > i32::MIN,
        ensures
            alpha_beta(*board, *bef_board, is_player1, depth as nat, alpha0, beta as int) == (
                best_move,
                alpha as int,
            ),
        decreases moves@.len() - i,
    {
        let next_move = moves[i];
        proof {
            lemma_moved_board_non_negative(*board, next_move, is_player1);
        }
        let next_board = make_moved_board(board, next_move, is_player1);
        let next_node = nega_alpha(&next_board, board, !is_player1, depth - 1, -beta, -alpha);
        point = -next_node.point;
        if point > alpha {
            alpha = point;
            best_move = next_move;
        }
        if alpha >= beta {
            break;
        }
        i = i + 1;
    }
    Node { best_move, point: alpha }
}

/// A game value: a score, or the value of a position without moves for the
/// player to move (below every score), or its negation (above every score).
pub enum Value {
    /// Below every score: the player to move has no move.
    Below,
    /// A score.
    Score(int),
    /// Above every score: the opponent has no move.
    Above,
}

/// The value seen by the other player.
pub open spec fn negate(v: Value) -> Value {
    match v {
        Value::Below => Value::Above,
        Value::Score(n) => Value::Score(-n),
        Value::Above => Value::Below,
    }
}

/// The larger of two values.
pub open spec fn max_value(v: Value, w: Value) -> Value {
    match (v, w) {
        (Value::Below, _) => w,
        (_, Value::Below) => v,
        (Value::Above, _) => Value::Above,
        (_, Value::Above) => Value::Above,
        (Value::Score(a), Value::Score(b)) => if a >= b {
            v
        } else {
            w
        },
    }
}

/// `v <= x`.
pub open spec fn value_le(v: Value, x: int) -> bool {
    match v {
        Value::Below => true,
        Value::Score(n) => n <= x,
        Value::Above => false,
    }
}

/// `v >= x`.
pub open spec fn value_ge(v: Value, x: int) -> bool {
    match v {
        Value::Below => false,
        Value::Score(n) => n >= x,
        Value::Above => true,
    }
}

/// The negamax value of `b` (reached from `bef`) for the player `is_player1`
/// names, searched `depth` plies deep without pruning: the static evaluation
/// at the horizon, the decided score of a decided position, and otherwise the
/// largest of the negated values of the replies.
pub open spec fn negamax(b: BitBoard, bef: BitBoard, is_player1: bool, depth: nat) -> Value
    decreases depth, 1int, 0int,
{
    if depth == 0 {
        Value::Score(eval_score(b, bef, is_player1))
    } else {
        let j = judge_score(b, bef, is_player1);
        if j != 0 {
            Value::Score(decided_score(j, depth))
        } else {
            negamax_moves(b, is_player1, depth, move_list(b, is_player1), 0)
        }
    }
}

/// The largest of the negated values of the replies to `moves[i..]`.
pub open spec fn negamax_moves(
    b: BitBoard,
    is_player1: bool,
    depth: nat,
    moves: Seq<(i32, i32)>,
    i: nat,
) -> Value
    decreases depth, 0int, moves.len() - i,
{
    if i >= moves.len() || depth == 0 {
        Value::Below
    } else {
        let child = negamax(moved_board(b, moves[i as int], is_player1), b, !is_player1, (depth - 1) as nat);
        max_value(negate(child), negamax_moves(b, is_player1, depth, moves, i + 1))
    }
}

/// `r` is what a search in the window `(alpha, beta)` may return for a
/// position of value `v`: a bound no better than `alpha` when `v` is at most
/// `alpha`, `v` itself inside the window, and a bound between `beta` and `v`
/// when `v` is at least `beta`.
pub open spec fn in_window(r: int, v: Value, alpha: int, beta: int) -> bool {
    &&& value_le(v, alpha) ==> r <= alpha && !value_ge(v, r + 1)
    &&& !value_le(v, alpha) && !value_ge(v, beta) ==> v == Value::Score(r)
    &&& value_ge(v, beta) ==> beta <= r && value_ge(v, r)
}

/// What the loop over the moves returns: exactly `alpha` when no move beats
/// it, the value inside the window, a bound between `beta` and the value
/// otherwise.
pub open spec fn loop_window(r: int, v: Value, alpha: int, beta: int) -> bool {
    &&& value_le(v, alpha) ==> r == alpha
    &&& !value_le(v, alpha) && !value_ge(v, beta) ==> v == Value::Score(r)
    &&& value_ge(v, beta) ==> beta <= r && value_ge(v, r)
}

proof fn lemma_in_window_negate(r: int, v: Value, alpha: int, beta: int)
    requires
        in_window(r, v, -beta, -alpha),
    ensures
        in_window(-r, negate(v), alpha, beta),
{
}

proof fn lemma_alpha_beta_loop_window(
    b: BitBoard,
    is_player1: bool,
    depth: nat,
    moves: Seq<(i32, i32)>,
    i: nat,
    alpha: int,
    beta: int,
    best: (i32, i32),
)
    requires
        alpha < beta,
    ensures
        loop_window(
            alpha_beta_loop(b, is_player1, depth, moves, i, alpha, beta, best).1,
            negamax_moves(b, is_player1, depth, moves, i),
            alpha,
            beta,
        ),
    decreases depth, 0int, moves.len() - i,
{
    if i < moves.len() && depth > 0 {
        let m = moves[i as int];
        let nb = moved_board(b, m, is_player1);
        let child = alpha_beta(nb, b, !is_player1, (depth - 1) as nat, -beta, -alpha);
        let cv = negamax(nb, b, !is_player1, (depth - 1) as nat);
        lemma_alpha_beta_window(nb, b, !is_player1, (depth - 1) as nat, -beta, -alpha);
        lemma_in_window_negate(child.1, cv, alpha, beta);
        let point = -child.1;
        let alpha2 = if point > alpha { point } else { alpha };
        let best2 = if point > alpha { m } else { best };
        if alpha2 < beta {
            lemma_alpha_beta_loop_window(b, is_player1, depth, moves, i + 1, alpha2, beta, best2);
        }
    }
}

/// Alpha-beta pruning is sound: in a window `(alpha, beta)` with
/// `alpha < beta`, the score `alpha_beta` returns is the negamax value when
/// that value lies inside the window, an upper bound no better than `alpha`
/// when the value is at most `alpha`, and a lower bound of at least `beta`
/// when the value is at least `beta`.
pub proof fn lemma_alpha_beta_window(
    b: BitBoard,
    bef: BitBoard,
    is_player1: bool,
    depth: nat,
    alpha: int,
    beta: int,
)
    requires
        alpha < beta,
    ensures
        in_window(alpha_beta(b, bef, is_player1, depth, alpha, beta).1, negamax(b, bef, is_player1, depth), alpha, beta),
    decreases depth, 1int, 0int,
{
    if depth > 0 && judge_score(b, bef, is_player1) == 0 {
        lemma_alpha_beta_loop_window(b, is_player1, depth, move_list(b, is_player1), 0, alpha, beta, (0i32, 0i32));
    }
}

/// Depth of the shallow search that orders the moves in `nega_scout`.
pub const SHALLOW_DEPTH: i32 = 3;

/// The shallow ordering pass of the negascout search over `moves[i..]`:
/// each move is scored by a `SHALLOW_DEPTH` alpha-beta search of the reply
/// in the window `(-beta, -alpha)`; a move scoring above `max_point` becomes
/// the best move and the previous best move is appended to `sorted`, any
/// other move is appended itself.
pub open spec fn scout_order_loop(
    b: BitBoard,
    is_player1: bool,
    moves: Seq<(i32, i32)>,
    i: nat,
    alpha: int,
    beta: int,
    max_point: int,
    best: (i32, i32),
    sorted: Seq<(i32, i32)>,
) -> ((i32, i32), Seq<(i32, i32)>)
    decreases moves.len() - i,
{
    if i >= moves.len() {
        (best, sorted)
    } else {
        let m = moves[i as int];
        let point = -alpha_beta(moved_board(b, m, is_player1), b, !is_player1, SHALLOW_DEPTH as nat, -beta, -alpha).1;
        if max_point < point {
            scout_order_loop(b, is_player1, moves, i + 1, alpha, beta, point, m, sorted.push(best))
        } else {
            scout_order_loop(b, is_player1, moves, i + 1, alpha, beta, max_point, best, sorted.push(m))
        }
    }
}

/// The move searched first by `nega_scout` and the order of the others: the
/// last listed move is scored first (it becomes the best move only if it
/// scores above `LOSE_POINT`, the best move being `(0, 0)` until then), then
/// the others in the order listed.
#[verifier::opaque]
pub open spec fn scout_order(
    b: BitBoard,
    is_player1: bool,
    moves: Seq<(i32, i32)>,
    alpha: int,
    beta: int,
) -> ((i32, i32), Seq<(i32, i32)>) {
    let first = moves.last();
    let point = -alpha_beta(moved_board(b, first, is_player1), b, !is_player1, SHALLOW_DEPTH as nat, -beta, -alpha).1;
    if (LOSE_POINT as int) < point {
        scout_order_loop(b, is_player1, moves.drop_last(), 0, alpha, beta, point, first, seq![])
    } else {
        scout_order_loop(b, is_player1, moves.drop_last(), 0, alpha, beta, LOSE_POINT as int, (0i32, 0i32), seq![])
    }
}

/// The result of the negascout search of `b` (reached from `bef`) for the
/// player `is_player1` names, `depth` plies deep, in the window
/// `(alpha, beta)`: the best move of the ordering pass and the score, or the
/// first position met with no move for the player to move.
pub open spec fn scout(
    b: BitBoard,
    bef: BitBoard,
    is_player1: bool,
    depth: nat,
    alpha: int,
    beta: int,
) -> Result<((i32, i32), int), BitBoard>
    decreases depth, 1int, 0int,
{
    if depth == 0 {
        Ok(((0i32, 0i32), eval_score(b, bef, is_player1)))
    } else {
        let j = judge_score(b, bef, is_player1);
        if j != 0 {
            Ok(((0i32, 0i32), decided_score(j, depth)))
        } else {
            let moves = move_list(b, is_player1);
            if moves.len() == 0 {
                Err(b)
            } else {
                let (best, sorted) = scout_order(b, is_player1, moves, alpha, beta);
                match scout(moved_board(b, best, is_player1), b, !is_player1, (depth - 1) as nat, -beta, -alpha) {
                    Err(e) => Err(e),
                    Ok(first) => {
                        let point = -first.1;
                        let alpha1 = if point > alpha { point } else { alpha };
                        match scout_loop(b, is_player1, depth, sorted, 0, alpha1, beta) {
                            Err(e) => Err(e),
                            Ok(a) => Ok((best, a)),
                        }
                    },
                }
            }
        }
    }
}

/// One move of the null-window pass of the negascout search: the reply to
/// `m` is searched in the window `(-alpha - 1, -alpha)`; a score of at least
/// `beta` stops the pass, and a score above `alpha` raises `alpha` to it and
/// is searched again in the window `(-beta, -score)`, which stops the pass
/// when it scores at least `beta` and raises `alpha` when it scores more.
/// The result is whether the pass stops and the new `alpha`.
pub open spec fn scout_step(
    b: BitBoard,
    is_player1: bool,
    depth: nat,
    m: (i32, i32),
    alpha: int,
    beta: int,
) -> Result<(bool, int), BitBoard>
    decreases depth, 0int, 0int,
{
    if depth == 0 {
        Ok((true, alpha))
    } else {
        let nb = moved_board(b, m, is_player1);
        match scout(nb, b, !is_player1, (depth - 1) as nat, -alpha - 1, -alpha) {
            Err(e) => Err(e),
            Ok(c) => {
                let point = -c.1;
                if beta <= point {
                    Ok((true, alpha))
                } else if alpha < point {
                    match scout(nb, b, !is_player1, (depth - 1) as nat, -beta, -point) {
                        Err(e) => Err(e),
                        Ok(c2) => {
                            let point2 = -c2.1;
                            if beta <= point2 {
                                Ok((true, point))
                            } else if point < point2 {
                                Ok((false, point2))
                            } else {
                                Ok((false, point))
                            }
                        },
                    }
                } else {
                    Ok((false, alpha))
                }
            },
        }
    }
}

/// The null-window pass of the negascout search over `sorted[i..]`, one
/// `scout_step` per move until a step stops it.
pub open spec fn scout_loop(
    b: BitBoard,
    is_player1: bool,
    depth: nat,
    sorted: Seq<(i32, i32)>,
    i: nat,
    alpha: int,
    beta: int,
) -> Result<int, BitBoard>
    decreases depth, 0int, sorted.len() - i,
{
    if i >= sorted.len() || depth == 0 {
        Ok(alpha)
    } else {
        match scout_step(b, is_player1, depth, sorted[i as int], alpha, beta) {
            Err(e) => Err(e),
            Ok(step) => if step.0 {
                Ok(step.1)
            } else {
                scout_loop(b, is_player1, depth, sorted, i + 1, step.1, beta)
            },
        }
    }
}

/// The deepest negascout search whose window arithmetic is proved free of
/// overflow: twice the depth, plus `WIN_POINT`, fits in an `i32`.
pub open spec fn max_scout_depth() -> int {
    (i32::MAX - WIN_POINT) / 2
}

/// The largest window bound (in absolute value) of a negascout search of
/// `depth` plies that does window arithmetic: each ply below may negate the
/// window and move it by one, and the result stays above `i32::MIN`.
pub open spec fn scout_bound(depth: int) -> int {
    i32::MAX - 1 - depth
}

/// The window condition of a negascout search: a search that scores a
/// decided position or stops at the horizon does no arithmetic on the window;
/// one that searches the moves needs `scout_bound`.
pub open spec fn scout_window_ok(
    b: BitBoard,
    bef: BitBoard,
    is_player1: bool,
    depth: int,
    alpha: int,
    beta: int,
) -> bool {
    depth > 0 && judge_score(b, bef, is_player1) == 0 ==> {
        &&& depth <= max_scout_depth()
        &&& -scout_bound(depth) <= alpha <= scout_bound(depth)
        &&& -scout_bound(depth) <= beta <= scout_bound(depth)
    }
}

/// The scores a negascout search in the window `(alpha, beta)` may return:
/// from `min(alpha, -(WIN_POINT + depth))` to
/// `max(alpha, beta, WIN_POINT + depth)`.
pub open spec fn scout_score_bounds(r: int, alpha: int, beta: int, depth: int) -> bool {
    &&& (r >= alpha || r >= -(WIN_POINT + depth))
    &&& (r <= alpha || r <= beta || r <= WIN_POINT + depth)
}

/// Negascout: the search of the player `is_player1` names on `board`
/// (reached from `bef_board`), `depth` plies deep in the window
/// `(alpha, beta)`, after ordering the moves by a shallow alpha-beta search.
/// The search must meet no position in which the player to move has no move
/// (`nega_scout_checked` reports such a position instead).
pub fn nega_scout(
    board: &BitBoard,
    bef_board: &BitBoard,
    is_player1: bool,
    depth: i32,
    alpha: i32,
    beta: i32,
) -> (r: Node)
    requires
        0 <= depth <= max_depth(),
        scout_window_ok(*board, *bef_board, is_player1, depth as int, alpha as int, beta as int),
        board.non_negative(),
        scout(*board, *bef_board, is_player1, depth as nat, alpha as int, beta as int) is Ok,
    ensures
        scout(*board, *bef_board, is_player1, depth as nat, alpha as int, beta as int)
            == Ok::<((i32, i32), int), BitBoard>((r.best_move, r.point as int)),
        scout_score_bounds(r.point as int, alpha as int, beta as int, depth as int),
{
    match nega_scout_checked(board, bef_board, is_player1, depth, alpha, beta) {
        Ok(n) => n,
        Err(e) => {
            proof {
                assert(false);
            }
            Node { best_move: (0, 0), point: 0 }
        },
    }
}

/// Negascout as `nega_scout`, for every position: `Err` carries the first
/// position met in which the player to move has no move, where the search
/// cannot go on.
pub fn nega_scout_checked(
    board: &BitBoard,
    bef_board: &BitBoard,
    is_player1: bool,
    depth: i32,
    alpha: i32,
    beta: i32,
) -> (r: Result<Node, BitBoard>)
    requires
        0 <= depth <= max_depth(),
        scout_window_ok(*board, *bef_board, is_player1, depth as int, alpha as int, beta as int),
        board.non_negative(),
    ensures
        match r {
            Ok(n) => scout(*board, *bef_board, is_player1, depth as nat, alpha as int, beta as int)
                == Ok::<((i32, i32), int), BitBoard>((n.best_move, n.point as int))
                && scout_score_bounds(n.point as int, alpha as int, beta as int, depth as int),
            Err(e) => scout(*board, *bef_board, is_player1, depth as nat, alpha as int, beta as int)
                == Err::<((i32, i32), int), BitBoard>(e),
        },
    decreases depth, 2int,
{
    let mut alpha = alpha;
    let mut best_move: (i32, i32) = (0, 0);
    if depth == 0 {
        let point: i32 = eval_function(board, bef_board, is_player1);
        return Ok(Node { best_move, point });
    }
    let mut point: i32 = judge(board, bef_board, is_player1);
    if point != 0 {
        if point == WIN_POINT {
            point += depth;
        } else {
            point -= depth;
        }
        return Ok(Node { best_move, point });
    }
    proof {
        lemma_move_gen_defined(*board, is_player1);
        lemma_move_list_positive(*board, is_player1);
    }
    let moves = next_move_list(board, is_player1);
    let move_cnt = moves.len();
    if move_cnt == 0 {
        return Err(
            BitBoard {
                pb1: board.pb1,
                pb2: board.pb2,
                lb: board.lb,
                kb: board.kb,
                zb: board.zb,
                hb: board.hb,
                nb: board.nb,
            },
        );
    }
    let ghost alpha0 = alpha as int;
    // ordering pass
    let mut sorted: Vec<(i32, i32)> = Vec::new();
    let mut max_point: i32 = LOSE_POINT;
    let first_move = moves[move_cnt - 1];
    proof {
        lemma_moved_board_non_negative(*board, first_move, is_player1);
    }
    let first_board = make_moved_board(board, first_move, is_player1);
    let first_node = nega_alpha(&first_board, board, !is_player1, SHALLOW_DEPTH, -beta, -alpha);
    point = -first_node.point;
    if max_point < point {
        max_point = point;
        best_move = first_move;
    }
    let ghost rest = moves@.drop_last();
    proof {
        reveal(scout_order);
    }
    let mut i: usize = 0;
    while i < move_cnt - 1
        invariant
            move_cnt == moves@.len(),
            move_cnt > 0,
            0 < depth <= max_scout_depth(),
            rest == moves@.drop_last(),
            alpha as int == alpha0,
            -scout_bound(depth as int) <= alpha <= scout_bound(depth as int),
            -scout_bound(depth as int) <= beta <= scout_bound(depth as int),
            board.non_negative(),
            forall|k: int|
                0 <= k < moves@.len() ==> (#[trigger] moves@[k]).0 > 0 && moves@[k].1 > 0,
            i <= move_cnt - 1,
            best_move.0 >= 0 && best_move.1 >= 0,
            forall|k: int|
                0 <= k < sorted@.len() ==> (#[trigger] sorted@[k]).0 >= 0 && sorted@[k].1 >= 0,
            scout_order(*board, is_player1, moves@, alpha as int, beta as int) == scout_order_loop(
                *board,
                is_player1,
                rest,
                i as nat,
                alpha as int,
                beta as int,
                max_point as int,
                best_move,
                sorted@,
            ),
        decreases move_cnt - 1 - i,
    {
        let next_move = moves[i];
        assert(rest[i as int] == next_move);
        proof {
            lemma_moved_board_non_negative(*board, next_move, is_player1);
        }
        let next_board = make_moved_board(board, next_move, is_player1);
        let next_node = nega_alpha(&next_board, board, !is_player1, SHALLOW_DEPTH, -beta, -alpha);
        point = -next_node.point;
        if max_point < point {
            sorted.push(best_move);
            max_point = point;
            best_move = next_move;
        } else {
            sorted.push(next_move);
        }
        i = i + 1;
    }
    assert(scout_order(*board, is_player1, moves@, alpha as int, beta as int) == (best_move, sorted@));
    // full-window search of the best move
    proof {
        lemma_moved_board_non_negative(*board, best_move, is_player1);
    }
    let next_board = make_moved_board(board, best_move, is_player1);
    let next_node = match nega_scout_checked(&next_board, board, !is_player1, depth - 1, -beta, -alpha) {
        Ok(n) => n,
        Err(e) => {
            return Err(e);
        },
    };
    point = -next_node.point;
    if point > alpha {
        alpha = point;
    }
    match null_window_pass(board, is_player1, depth, &sorted, alpha, Ghost(alpha0), beta) {
        Ok(a) => Ok(Node { best_move, point: a }),
        Err(e) => Err(e),
    }
}

fn scout_step_exec(
    board: &BitBoard,
    is_player1: bool,
    depth: i32,
    next_move: (i32, i32),
    alpha: i32,
    beta: i32,
) -> (r: Result<(bool, i32), BitBoard>)
    requires
        0 < depth <= max_scout_depth(),
        -scout_bound(depth as int) <= alpha <= scout_bound(depth as int),
        -scout_bound(depth as int) <= beta <= scout_bound(depth as int),
        board.non_negative(),
        next_move.0 >= 0,
        next_move.1 >= 0,
    ensures
        match r {
            Ok(step) => scout_step(*board, is_player1, depth as nat, next_move, alpha as int, beta as int)
                == Ok::<(bool, int), BitBoard>((step.0, step.1 as int)) && step.1 >= alpha && (step.1
                == alpha || step.1 <= beta),
            Err(e) => scout_step(*board, is_player1, depth as nat, next_move, alpha as int, beta as int)
                == Err::<(bool, int), BitBoard>(e),
        },
    decreases depth, 0int,
{
    proof {
        lemma_moved_board_non_negative(*board, next_move, is_player1);
    }
    let next_board = make_moved_board(board, next_move, is_player1);
    let next_node = match nega_scout_checked(&next_board, board, !is_player1, depth - 1, -alpha - 1, -alpha) {
        Ok(n) => n,
        Err(e) => {
            return Err(e);
        },
    };
    let point = -next_node.point;
    if beta <= point {
        return Ok((true, alpha));
    }
    if alpha < point {
        let next_node = match nega_scout_checked(&next_board, board, !is_player1, depth - 1, -beta, -point) {
            Ok(n) => n,
            Err(e) => {
                return Err(e);
            },
        };
        let point2 = -next_node.point;
        if beta <= point2 {
            return Ok((true, point));
        }
        if point < point2 {
            return Ok((false, point2));
        }
        return Ok((false, point));
    }
    Ok((false, alpha))
}

proof fn lemma_scout_loop_step(
    b: BitBoard,
    is_player1: bool,
    depth: nat,
    sorted: Seq<(i32, i32)>,
    i: nat,
    alpha: int,
    beta: int,
)
    requires
        i < sorted.len(),
        depth > 0,
    ensures
        scout_loop(b, is_player1, depth, sorted, i, alpha, beta) == (match scout_step(
            b,
            is_player1,
            depth,
            sorted[i as int],
            alpha,
            beta,
        ) {
            Err(e) => Err(e),
            Ok(step) => if step.0 {
                Ok(step.1)
            } else {
                scout_loop(b, is_player1, depth, sorted, i + 1, step.1, beta)
            },
        }),
{
    reveal_with_fuel(scout_loop, 2);
}

#[verifier::rlimit(60)]
fn null_window_pass(
    board: &BitBoard,
    is_player1: bool,
    depth: i32,
    sorted: &Vec<(i32, i32)>,
    alpha: i32,
    Ghost(alpha0): Ghost<int>,
    beta: i32,
) -> (r: Result<i32, BitBoard>)
    requires
        0 < depth <= max_scout_depth(),
        -scout_bound(depth as int) <= alpha <= scout_bound(depth as int),
        -scout_bound(depth as int) <= beta <= scout_bound(depth as int),
        board.non_negative(),
        forall|k: int|
            0 <= k < sorted@.len() ==> (#[trigger] sorted@[k]).0 >= 0 && sorted@[k].1 >= 0,
        alpha as int >= alpha0,
        alpha <= alpha0 || alpha <= beta || alpha <= WIN_POINT + depth - 1,
    ensures
        match r {
            Ok(res) => scout_loop(*board, is_player1, depth as nat, sorted@, 0, alpha as int, beta as int)
                == Ok::<int, BitBoard>(res as int) && res >= alpha0 && (res <= alpha0 || res <= beta
                || res <= WIN_POINT + depth - 1),
            Err(e) => scout_loop(*board, is_player1, depth as nat, sorted@, 0, alpha as int, beta as int)
                == Err::<int, BitBoard>(e),
        },
    decreases depth, 1int,
{
    let mut a = alpha;
    // null-window pass over the other moves
    let mut j: usize = 0;
    while j < sorted.len()
        invariant_except_break
            scout_loop(*board, is_player1, depth as nat, sorted@, 0, alpha as int, beta as int) == scout_loop(
                *board,
                is_player1,
                depth as nat,
                sorted@,
                j as nat,
                a as int,
                beta as int,
            ),
        invariant
            0 < depth <= max_scout_depth(),
            -scout_bound(depth as int) <= beta <= scout_bound(depth as int),
            board.non_negative(),
            forall|k: int|
                0 <= k < sorted@.len() ==> (#[trigger] sorted@[k]).0 >= 0 && sorted@[k].1 >= 0,
            j <= sorted@.len(),
            a as int >= alpha0,
            a <= alpha0 || a <= beta || a <= WIN_POINT + depth - 1,
            -scout_bound(depth as int) <= a <= scout_bound(depth as int),
        ensures
            scout_loop(*board, is_player1, depth as nat, sorted@, 0, alpha as int, beta as int) == Ok::<int, BitBoard>(a as int),
        decreases sorted@.len() - j,
    {
        let next_move = sorted[j];
        proof {
            lemma_scout_loop_step(*board, is_player1, depth as nat, sorted@, j as nat, a as int, beta as int);
        }
        let step = scout_step_exec(board, is_player1, depth, next_move, a, beta);
        let (stop, new_alpha) = match step {
            Ok(st) => st,
            Err(e) => {
                assert(scout_loop(*board, is_player1, depth as nat, sorted@, 0, alpha as int, beta as int)
                    == Err::<int, BitBoard>(e));
                return Err(e);
            },
        };
        a = new_alpha;
        if stop {
            break;
        }
        j = j + 1;
    }
    Ok(a)
}

proof fn lemma_alpha_beta_loop_listed(
    b: BitBoard,
    is_player1: bool,
    depth: nat,
    moves: Seq<(i32, i32)>,
    i: nat,
    alpha: int,
    beta: int,
    best: (i32, i32),
)
    ensures
        alpha_beta_loop(b, is_player1, depth, moves, i, alpha, beta, best).0 == best || moves.contains(
            alpha_beta_loop(b, is_player1, depth, moves, i, alpha, beta, best).0,
        ),
    decreases moves.len() - i,
{
    if i < moves.len() && depth > 0 {
        let m = moves[i as int];
        let child = alpha_beta(moved_board(b, m, is_player1), b, !is_player1, (depth - 1) as nat, -beta, -alpha);
        let point = -child.1;
        let alpha2 = if point > alpha { point } else { alpha };
        let best2 = if point > alpha { m } else { best };
        assert(moves.contains(m));
        if alpha2 < beta {
            lemma_alpha_beta_loop_listed(b, is_player1, depth, moves, i + 1, alpha2, beta, best2);
        }
    }
}

/// The move `nega_alpha` chooses is `(0, 0)` (none) or one of the moves
/// that `next_move_list` lists.
pub proof fn lemma_alpha_beta_move_listed(
    b: BitBoard,
    bef: BitBoard,
    is_player1: bool,
    depth: nat,
    alpha: int,
    beta: int,
)
    ensures
        alpha_beta(b, bef, is_player1, depth, alpha, beta).0 == (0i32, 0i32) || move_list(
            b,
            is_player1,
        ).contains(alpha_beta(b, bef, is_player1, depth, alpha, beta).0),
{
    if depth > 0 && judge_score(b, bef, is_player1) == 0 {
        lemma_alpha_beta_loop_listed(b, is_player1, depth, move_list(b, is_player1), 0, alpha, beta, (0i32, 0i32));
    }
}

proof fn lemma_alpha_beta_loop_best(
    b: BitBoard,
    is_player1: bool,
    depth: nat,
    moves: Seq<(i32, i32)>,
    i: nat,
    alpha: int,
    beta: int,
    best: (i32, i32),
    alpha0: int,
)
    requires
        depth > 0,
        alpha0 <= alpha < beta,
        forall|k: int| 0 <= k < moves.len() ==> (#[trigger] moves[k]).0 > 0,
        (best == (0i32, 0i32)) == (alpha == alpha0),
        best != (0i32, 0i32) ==> moves.contains(best) && negate(
            negamax(moved_board(b, best, is_player1), b, !is_player1, (depth - 1) as nat),
        ) == Value::Score(alpha),
    ensures
        ({
            let r = alpha_beta_loop(b, is_player1, depth, moves, i, alpha, beta, best);
            &&& r.1 >= alpha0
            &&& (r.0 == (0i32, 0i32)) == (r.1 == alpha0)
            &&& r.0 != (0i32, 0i32) ==> moves.contains(r.0)
            &&& r.0 != (0i32, 0i32) && r.1 < beta ==> negate(
                negamax(moved_board(b, r.0, is_player1), b, !is_player1, (depth - 1) as nat),
            ) == Value::Score(r.1)
        }),
    decreases moves.len() - i,
{
    if i < moves.len() {
        let m = moves[i as int];
        let nb = moved_board(b, m, is_player1);
        let child = alpha_beta(nb, b, !is_player1, (depth - 1) as nat, -beta, -alpha);
        let cv = negamax(nb, b, !is_player1, (depth - 1) as nat);
        lemma_alpha_beta_window(nb, b, !is_player1, (depth - 1) as nat, -beta, -alpha);
        let point = -child.1;
        let alpha2 = if point > alpha { point } else { alpha };
        let best2 = if point > alpha { m } else { best };
        assert(moves.contains(m));
        assert(m.0 > 0);
        if point > alpha && point < beta {
            assert(cv == Value::Score(child.1));
        }
        if alpha2 < beta {
            lemma_alpha_beta_loop_best(b, is_player1, depth, moves, i + 1, alpha2, beta, best2, alpha0);
        }
    }
}

/// The move `nega_alpha` chooses on an undecided position searched at least
/// one ply deep in a window `(alpha, beta)` with `alpha < beta`: the score is
/// at least `alpha`; the move is `(0, 0)` exactly when the score is `alpha`,
/// and otherwise a listed move; when the negamax value lies inside the
/// window, the move is one whose reply has exactly that value.
pub proof fn lemma_alpha_beta_best_move(
    b: BitBoard,
    bef: BitBoard,
    is_player1: bool,
    depth: nat,
    alpha: int,
    beta: int,
)
    requires
        depth > 0,
        judge_score(b, bef, is_player1) == 0,
        alpha < beta,
    ensures
        ({
            let r = alpha_beta(b, bef, is_player1, depth, alpha, beta);
            let v = negamax(b, bef, is_player1, depth);
            &&& r.1 >= alpha
            &&& (r.0 == (0i32, 0i32)) == (r.1 == alpha)
            &&& r.0 != (0i32, 0i32) ==> move_list(b, is_player1).contains(r.0)
            &&& !value_le(v, alpha) && !value_ge(v, beta) ==> r.0 != (0i32, 0i32) && v == Value::Score(r.1)
                && negate(negamax(moved_board(b, r.0, is_player1), b, !is_player1, (depth - 1) as nat))
                == v
        }),
{
    lemma_move_list_positive(b, is_player1);
    lemma_alpha_beta_window(b, bef, is_player1, depth, alpha, beta);
    lemma_alpha_beta_loop_best(b, is_player1, depth, move_list(b, is_player1), 0, alpha, beta, (0i32, 0i32), alpha);
}

proof fn lemma_scout_order_loop_listed(
    b: BitBoard,
    is_player1: bool,
    all: Seq<(i32, i32)>,
    moves: Seq<(i32, i32)>,
    i: nat,
    alpha: int,
    beta: int,
    max_point: int,
    best: (i32, i32),
    sorted: Seq<(i32, i32)>,
)
    requires
        forall|k: int| 0 <= k < moves.len() ==> all.contains(#[trigger] moves[k]),
        best == (0i32, 0i32) || all.contains(best),
    ensures
        scout_order_loop(b, is_player1, moves, i, alpha, beta, max_point, best, sorted).0 == (0i32, 0i32)
            || all.contains(scout_order_loop(b, is_player1, moves, i, alpha, beta, max_point, best, sorted).0),
    decreases moves.len() - i,
{
    if i < moves.len() {
        let m = moves[i as int];
        assert(all.contains(m));
        let point = -alpha_beta(moved_board(b, m, is_player1), b, !is_player1, SHALLOW_DEPTH as nat, -beta, -alpha).1;
        if max_point < point {
            lemma_scout_order_loop_listed(b, is_player1, all, moves, i + 1, alpha, beta, point, m, sorted.push(best));
        } else {
            lemma_scout_order_loop_listed(b, is_player1, all, moves, i + 1, alpha, beta, max_point, best, sorted.push(m));
        }
    }
}

/// The move `nega_scout` chooses is `(0, 0)` (none) or one of the moves that
/// `next_move_list` lists.
pub proof fn lemma_scout_move_listed(
    b: BitBoard,
    bef: BitBoard,
    is_player1: bool,
    depth: nat,
    alpha: int,
    beta: int,
)
    ensures
        scout(b, bef, is_player1, depth, alpha, beta) matches Ok(r) ==> r.0 == (0i32, 0i32) || move_list(
            b,
            is_player1,
        ).contains(r.0),
{
    let moves = move_list(b, is_player1);
    if depth > 0 && judge_score(b, bef, is_player1) == 0 && moves.len() > 0 {
        reveal(scout_order);
        let first = moves.last();
        assert(moves.contains(first));
        assert forall|k: int| 0 <= k < moves.drop_last().len() implies moves.contains(
            #[trigger] moves.drop_last()[k],
        ) by {
            assert(moves[k] == moves.drop_last()[k]);
        }
        let point = -alpha_beta(moved_board(b, first, is_player1), b, !is_player1, SHALLOW_DEPTH as nat, -beta, -alpha).1;
        if (LOSE_POINT as int) < point {
            lemma_scout_order_loop_listed(b, is_player1, moves, moves.drop_last(), 0, alpha, beta, point, first, seq![]);
        } else {
            lemma_scout_order_loop_listed(b, is_player1, moves, moves.drop_last(), 0, alpha, beta, LOSE_POINT as int, (0i32, 0i32), seq![]);
        }
    }
}

} // verus!
