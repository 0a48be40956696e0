//! Depth-limited negamax with alpha-beta pruning, and the root-level
//! decision functions built on it.

use vstd::prelude::*;
use crate::board::{BoardInfo, board_wf, single_bit, popcount, count_bits, MAX_TURNS};
use crate::moves::{spec_make_legal_board, make_legal_board};
use crate::place::{spec_apply_move, spec_game_over, place, is_game_over, lemma_place_preserves_wf};
use crate::board::spec_swap;
use crate::eval::{
    spec_evaluate,
    evaluate,
    max,
    EVAL_BY_POINTTABLE,
    EVAL_NORMAL,
    EVAL_PERFECT,
    EVAL_WIN,
    EVAL_PERFECT_DEPTH,
    EVAL_WIN_DEPTH,
};

verus! {

/// The score of a position seen from the other side.  The most negative
/// score (a wiped-out side to move) negates to the most positive one, which
/// is the evaluators' value for a wiped-out opponent.
pub open spec fn spec_neg_score(s: int) -> int {
    if s == i32::MIN {
        i32::MAX as int
    } else {
        -s
    }
}

/// Negates a score without leaving the representable range.
pub fn neg_score(s: i32) -> (r: i32)
    ensures
        r == spec_neg_score(s as int),
{
    if s == i32::MIN {
        i32::MAX
    } else {
        -s
    }
}

/// One of the four evaluator tags.
pub open spec fn valid_way(way: i8) -> bool {
    way == EVAL_BY_POINTTABLE || way == EVAL_NORMAL || way == EVAL_PERFECT || way == EVAL_WIN
}

/// Whether the side to move of `b` still has a legal move; the second
/// component of the search's termination measure.
pub open spec fn pass_flag(b: BoardInfo) -> int {
    if spec_make_legal_board(b) != 0 {
        0
    } else {
        1
    }
}

/// The value of the fail-soft alpha-beta search: the scan over candidate
/// squares `i..64`, carrying the window and the best score seen so far.
/// A child score at or above `beta` is returned at once; otherwise it can
/// only raise the best score and the window's lower bound.
pub open spec fn spec_search_moves(
    alpha: int,
    beta: int,
    limit: int,
    b: BoardInfo,
    way: i8,
    i: int,
    score_max: int,
) -> int
    decreases limit, 0int, 64 - i,
{
    if i < 0 || i >= 64 || limit <= 0 {
        score_max
    } else {
        let m = 1u64 << (i as u64);
        if m & spec_make_legal_board(b) != 0 {
            let child = spec_swap(spec_apply_move(b, m));
            let score = spec_neg_score(spec_negamax(-beta, -alpha, limit - 1, child, way));
            if score >= beta {
                score
            } else if score > score_max {
                spec_search_moves(
                    if alpha < score {
                        score
                    } else {
                        alpha
                    },
                    beta,
                    limit,
                    b,
                    way,
                    i + 1,
                    score,
                )
            } else {
                spec_search_moves(alpha, beta, limit, b, way, i + 1, score_max)
            }
        } else {
            spec_search_moves(alpha, beta, limit, b, way, i + 1, score_max)
        }
    }
}

/// The value of the negamax search with window `(alpha, beta)` and `limit`
/// plies to go: the evaluator's score at the horizon or when neither side
/// can move; the negated value of the swapped board when only the side to
/// move is stuck; otherwise the best child score of the scan.
pub open spec fn spec_negamax(alpha: int, beta: int, limit: int, b: BoardInfo, way: i8) -> int
    decreases limit, pass_flag(b), 65int,
{
    if limit <= 0 || spec_game_over(b) {
        spec_evaluate(way, b)
    } else if spec_make_legal_board(b) == 0 {
        spec_neg_score(spec_negamax(-beta, -alpha, limit, spec_swap(b), way))
    } else {
        spec_search_moves(alpha, beta, limit, b, way, 0, i32::MIN as int)
    }
}

/// Searches the game tree below `board_info` to depth `limit` with the
/// fail-soft alpha-beta window `(alpha_, beta_)`, scoring horizon positions
/// with the chosen evaluator.  The board is handed back unchanged.  The
/// pruning law in the laws module relates the returned value to the
/// exhaustive search value: within the window the two agree.
pub fn negamax(alpha_: i32, beta_: i32, limit: i8, board_info: &mut BoardInfo, way_of_eval: i8) -> (r:
    i32)
    requires
        board_wf(*old(board_info)),
        valid_way(way_of_eval),
        limit >= 0,
        alpha_ > i32::MIN,
        beta_ > i32::MIN,
        old(board_info).now_index + limit <= i8::MAX,
    ensures
        *final(board_info) == *old(board_info),
        r == spec_negamax(alpha_ as int, beta_ as int, limit as int, *old(board_info), way_of_eval),
    decreases limit, pass_flag(*old(board_info)),
{
    let ghost b0 = *old(board_info);
    let mut alpha: i32 = alpha_;
    let beta: i32 = beta_;

    if limit == 0 || is_game_over(board_info) {
        return evaluate(way_of_eval, board_info);
    }

    let legal_board: u64 = make_legal_board(board_info);
    let mut score: i32;

    if legal_board == 0 {
        let tmp_board_info: BoardInfo = board_info.clone();
        proof {
            crate::board::lemma_swap_wf(b0);
        }
        crate::board::swap(board_info);
        score = neg_score(negamax(-beta, -alpha, limit, board_info, way_of_eval));
        *board_info = tmp_board_info;
        return score;
    }

    let mut score_max: i32 = i32::MIN;
    let mut mask: u64 = 0x0000000000000001;
    let mut i: u64 = 0;

    proof {
        crate::board::lemma_shl_step(0);
    }
    while i < 64
        invariant
            0 <= i <= 64,
            i < 64 ==> mask == 1u64 << i,
            b0 == *old(board_info),
            *board_info == b0,
            board_wf(b0),
            valid_way(way_of_eval),
            1 <= limit,
            b0.now_index + limit <= i8::MAX,
            legal_board == spec_make_legal_board(b0),
            legal_board != 0,
            alpha > i32::MIN,
            beta > i32::MIN,
            beta == beta_,
            spec_negamax(alpha_ as int, beta_ as int, limit as int, b0, way_of_eval)
                == spec_search_moves(
                alpha as int,
                beta as int,
                limit as int,
                b0,
                way_of_eval,
                i as int,
                score_max as int,
            ),
        decreases 64 - i,
    {
        let ghost alpha_head = alpha;
        let ghost sm_head = score_max;
        proof {
            crate::board::lemma_shl_step(i);
        }
        if mask & legal_board != 0 {
            proof {
                crate::board::lemma_single_bit_meets(mask, legal_board);
                lemma_place_preserves_wf(b0, mask);
                crate::board::lemma_swap_wf(spec_apply_move(b0, mask));
            }
            let tmp_board_info: BoardInfo = board_info.clone();
            place(mask, board_info);
            crate::board::swap(board_info);
            score = neg_score(negamax(-beta, -alpha, limit - 1, board_info, way_of_eval));
            *board_info = tmp_board_info;

            proof {
                assert(1u64 << ((i as int) as u64) == mask);
                assert(score as int == spec_neg_score(
                    spec_negamax(
                        -(beta as int),
                        -(alpha as int),
                        limit as int - 1,
                        spec_swap(spec_apply_move(b0, mask)),
                        way_of_eval,
                    ),
                ));
            }
            if score >= beta {
                proof {
                    assert(spec_search_moves(
                        alpha as int,
                        beta as int,
                        limit as int,
                        b0,
                        way_of_eval,
                        i as int,
                        score_max as int,
                    ) == score as int);
                }
                return score;
            }
            if score > score_max {
                score_max = score;
                alpha = max(alpha, score_max);
            }
        }
        proof {
            assert(spec_search_moves(
                alpha_head as int,
                beta as int,
                limit as int,
                b0,
                way_of_eval,
                i as int,
                sm_head as int,
            ) == spec_search_moves(
                alpha as int,
                beta as int,
                limit as int,
                b0,
                way_of_eval,
                i as int + 1,
                score_max as int,
            ));
        }
        mask = mask << 1;
        i += 1;
    }

    score_max
}

/// The evaluator suited to the number of plies left: exact resolution close
/// to the end, win-only probing a little earlier, the mid-game heuristic
/// otherwise.
pub open spec fn spec_choose_evaluator(b: BoardInfo) -> i8 {
    if MAX_TURNS - b.now_index <= EVAL_WIN_DEPTH {
        if MAX_TURNS - b.now_index <= EVAL_PERFECT_DEPTH {
            EVAL_PERFECT
        } else {
            EVAL_WIN
        }
    } else {
        EVAL_NORMAL
    }
}

/// Chooses the evaluator for the board's phase of the game.
pub fn choose_evaluator(board_info: &BoardInfo) -> (r: i8)
    requires
        board_info.now_index >= 0,
    ensures
        r == spec_choose_evaluator(*board_info),
{
    if MAX_TURNS - board_info.now_index <= EVAL_WIN_DEPTH {
        if MAX_TURNS - board_info.now_index <= EVAL_PERFECT_DEPTH {
            return EVAL_PERFECT;
        }
        return EVAL_WIN;
    }
    EVAL_NORMAL
}

/// The score a root worker reports for one candidate move: the move is
/// played on a copy, the sides swap, and the subtree below it is searched
/// with a full window one ply shallower.
pub open spec fn spec_root_score(b: BoardInfo, m: u64, limit: int, way: i8) -> int {
    spec_neg_score(
        spec_negamax(
            i32::MIN + 1,
            i32::MAX - 1,
            limit - 1,
            spec_swap(spec_apply_move(b, m)),
            way,
        ),
    )
}

/// Scores one legal root move by a full-window search below it.
pub fn search_root_move(board_info: &BoardInfo, mask: u64, limit: i8, way_of_eval: i8) -> (s: i32)
    requires
        board_wf(*board_info),
        valid_way(way_of_eval),
        single_bit(mask),
        mask & spec_make_legal_board(*board_info) == mask,
        limit >= 1,
        board_info.now_index + limit <= i8::MAX,
    ensures
        s == spec_root_score(*board_info, mask, limit as int, way_of_eval),
{
    proof {
        lemma_place_preserves_wf(*board_info, mask);
        crate::board::lemma_swap_wf(spec_apply_move(*board_info, mask));
    }
    let mut tmp_board_info = board_info.clone();
    place(mask, &mut tmp_board_info);
    crate::board::swap(&mut tmp_board_info);
    neg_score(negamax(i32::MIN + 1, i32::MAX - 1, limit - 1, &mut tmp_board_info, way_of_eval))
}

/// The scan of the root decider from candidate square `i` on: a win-only
/// search stops at the first move whose score is 1; otherwise the move with
/// the strictly best score wins, earlier squares breaking ties.
pub open spec fn spec_choose_from(
    b: BoardInfo,
    way: i8,
    limit: int,
    i: int,
    best: u64,
    best_score: int,
) -> u64
    decreases 64 - i,
{
    if i < 0 || i >= 64 {
        best
    } else {
        let m = 1u64 << (i as u64);
        if m & spec_make_legal_board(b) != 0 {
            let sc = spec_root_score(b, m, limit, way);
            if way == EVAL_WIN && sc == 1 {
                m
            } else if sc > best_score {
                spec_choose_from(b, way, limit, i + 1, m, sc)
            } else {
                spec_choose_from(b, way, limit, i + 1, best, best_score)
            }
        } else {
            spec_choose_from(b, way, limit, i + 1, best, best_score)
        }
    }
}

/// The move the root decider commits to: a pass when there is no legal
/// move, the single legal move when there is only one, and otherwise the
/// result of scoring every root move.
pub open spec fn spec_choose_root_move(b: BoardInfo, way: i8, limit: int) -> u64 {
    let legal = spec_make_legal_board(b);
    if legal == 0 {
        0u64
    } else if popcount(legal) == 1 {
        legal
    } else {
        spec_choose_from(b, way, limit, 0, 0, i32::MIN as int)
    }
}

/// Decides the next move by scoring every legal root move in turn.  In
/// win-only mode the first move that guarantees a win is returned at once,
/// without scoring the rest.
pub fn choose_root_move(board_info: &BoardInfo, way_of_eval: i8, limit: i8) -> (r: u64)
    requires
        board_wf(*board_info),
        valid_way(way_of_eval),
        limit >= 1,
        board_info.now_index + limit <= i8::MAX,
    ensures
        r == spec_choose_root_move(*board_info, way_of_eval, limit as int),
        r == 0 || r & spec_make_legal_board(*board_info) != 0,
{
    let legal_board: u64 = make_legal_board(board_info);

    if legal_board == 0 {
        return 0;
    }
    if count_bits(legal_board) == 1 {
        proof {
            crate::board::lemma_or_identities(legal_board, 0);
        }
        return legal_board;
    }

    let mut ret: u64 = 0;
    let mut max_eval: i32 = i32::MIN;
    let mut mask: u64 = 0x0000000000000001;
    let mut i: u64 = 0;

    proof {
        crate::board::lemma_shl_step(0);
    }
    while i < 64
        invariant
            0 <= i <= 64,
            i < 64 ==> mask == 1u64 << i,
            board_wf(*board_info),
            valid_way(way_of_eval),
            1 <= limit,
            board_info.now_index + limit <= i8::MAX,
            legal_board == spec_make_legal_board(*board_info),
            ret == 0 || ret & legal_board != 0,
            spec_choose_root_move(*board_info, way_of_eval, limit as int) == spec_choose_from(
                *board_info,
                way_of_eval,
                limit as int,
                i as int,
                ret,
                max_eval as int,
            ),
        decreases 64 - i,
    {
        proof {
            crate::board::lemma_shl_step(i);
        }
        if mask & legal_board != 0 {
            proof {
                crate::board::lemma_single_bit_meets(mask, legal_board);
            }
            let tmp = search_root_move(board_info, mask, limit, way_of_eval);

            if way_of_eval == EVAL_WIN && tmp == 1 {
                return mask;
            }
            if tmp > max_eval {
                max_eval = tmp;
                ret = mask;
            }
        }
        mask = mask << 1;
        i += 1;
    }

    ret
}

/// Whether the decider should abandon an endgame search for the shallower
/// heuristic one: an endgame evaluator, less than ten seconds of clock
/// projected to remain, and a ply in the band where the deep endgame
/// depths apply.
pub open spec fn spec_should_fallback(way: i8, left_time: i32, elapsed_sec: u64, now_index: i8) -> bool {
    &&& (way == EVAL_WIN || way == EVAL_PERFECT)
    &&& left_time - elapsed_sec * 1000 <= 10000
    &&& EVAL_PERFECT_DEPTH <= 60 - now_index
    &&& 60 - now_index <= EVAL_WIN_DEPTH
}

/// Tests the decider's time-pressure condition.
pub fn should_fallback(way_of_eval: i8, left_time: i32, elapsed_sec: u64, now_index: i8) -> (r:
    bool)
    requires
        left_time >= 0,
        elapsed_sec <= 2000000,
        now_index >= 0,
    ensures
        r == spec_should_fallback(way_of_eval, left_time, elapsed_sec, now_index),
{
    (way_of_eval == EVAL_WIN || way_of_eval == EVAL_PERFECT) && left_time - (elapsed_sec as i32)
        * 1000 <= 10000 && EVAL_PERFECT_DEPTH <= 60 - now_index && 60 - now_index <= EVAL_WIN_DEPTH
}

} // verus!
