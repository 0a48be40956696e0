//! The engine's global laws, stated and proved over the specification
//! functions that the executable contracts use.

use vstd::prelude::*;
use crate::board::{
    BoardInfo,
    board_wf,
    single_bit,
    popcount,
    pop_upto,
    spec_swap,
    spec_initial_board,
    lemma_popcount_bound,
    lemma_swap_wf,
};
use crate::moves::{
    spec_make_legal_board,
    spec_legal_board,
    lemma_legal_in_blank,
    spec_transfer,
    spec_sweep_shl,
    spec_sweep_shr,
    spec_sweep_shl_n,
    spec_sweep_shr_n,
    lemma_sweep_n,
};
use crate::place::{spec_flip_dir, spec_flip_run, spec_flip_closes, spec_flips_upto};
use crate::place::{
    spec_apply_move,
    spec_flips,
    spec_game_over,
    spec_place_status,
    lemma_flips_in_opp,
    lemma_place_preserves_wf,
    PLACE_ERR,
};
use crate::search::{spec_negamax, spec_search_moves, spec_neg_score, pass_flag};
use crate::eval::{
    spec_evaluate,
    spec_eval_perfect,
    spec_eval_win,
    spec_eval_normal,
    spec_eval_pointtable,
    spec_ray_from,
    spec_openness_from,
    EVAL_PERFECT,
    EVAL_WIN,
};

verus! {

/// The standard starting position is well formed, and every step of play
/// keeps a board well formed: placing a legal disc and swapping sides both
/// preserve the disjointness of the two masks.  Every reachable board is
/// therefore well formed.
pub proof fn law_reachable_boards_wf(b: BoardInfo, m: u64)
    requires
        board_wf(b),
        single_bit(m),
        m & spec_make_legal_board(b) == m,
    ensures
        board_wf(spec_initial_board()),
        board_wf(spec_apply_move(b, m)),
        board_wf(spec_swap(b)),
{
    assert(0x0000000810000000u64 & 0x0000001008000000u64 == 0) by (bit_vector);
    lemma_place_preserves_wf(b, m);
    lemma_swap_wf(b);
}

/// Counting bits distributes over a disjoint union.
pub proof fn lemma_pop_upto_or_disjoint(x: u64, y: u64, k: int)
    requires
        x & y == 0,
        0 <= k <= 64,
    ensures
        pop_upto(x | y, k) == pop_upto(x, k) + pop_upto(y, k),
    decreases k,
{
    if k > 0 {
        lemma_pop_upto_or_disjoint(x, y, k - 1);
        let c = (k - 1) as u64;
        assert((((x | y) & (1u64 << c) != 0) == ((x & (1u64 << c) != 0) || (y & (1u64 << c) != 0)))
            && !((x & (1u64 << c) != 0) && (y & (1u64 << c) != 0))) by (bit_vector)
            requires
                x & y == 0,
        ;
    }
}

proof fn lemma_pop_single_upto(m: u64, k: int)
    requires
        single_bit(m),
        0 <= k <= 64,
    ensures
        pop_upto(m, k) == (if k == 64 || m < (1u64 << (k as u64)) {
            1int
        } else {
            0int
        }),
    decreases k,
{
    if k > 0 {
        lemma_pop_single_upto(m, k - 1);
        let c = (k - 1) as u64;
        assert(((if c == 63 {
            true
        } else {
            m < (1u64 << ((c + 1) as u64))
        }) == ((m < (1u64 << c)) || (m & (1u64 << c) != 0))) && !((m < (1u64 << c)) && (m & (1u64
            << c) != 0))) by (bit_vector)
            requires
                c < 64 && m != 0 && m & ((m - 1) as u64) == 0,
        ;
    } else {
        assert(!(m < (1u64 << 0u64))) by (bit_vector)
            requires
                m != 0,
        ;
    }
}

/// A single square counts as one disc.
pub proof fn lemma_pop_single(m: u64)
    requires
        single_bit(m),
    ensures
        popcount(m) == 1,
{
    lemma_pop_single_upto(m, 64);
}

/// Playing a move in the legal mask fills exactly one more square: the
/// occupied set grows by the placed square alone.
pub proof fn law_place_grows_board(b: BoardInfo, m: u64)
    requires
        board_wf(b),
        single_bit(m),
        m & spec_make_legal_board(b) != 0,
    ensures
        ({
            let nb = spec_apply_move(b, m);
            popcount(nb.player_board | nb.opponent_board) == popcount(
                b.player_board | b.opponent_board,
            ) + 1
        }),
{
    let p = b.player_board;
    let o = b.opponent_board;
    let legal = spec_legal_board(p, o);
    lemma_legal_in_blank(p, o);
    lemma_flips_in_opp(p, o, m, 8);
    let rev = spec_flips(p, o, m);
    assert(((p ^ (m | rev)) | (o ^ rev) == (p | o) | m) && (p | o) & m == 0) by (bit_vector)
        requires
            m != 0 && m & ((m - 1) as u64) == 0 && m & legal != 0 && legal & (p | o) == 0 && p & o
                == 0 && rev & !o == 0,
    ;
    lemma_pop_upto_or_disjoint(p | o, m, 64);
    lemma_pop_single(m);
}

/// The legal-move mask is exactly the set of single squares that `place`
/// accepts: placing errs on a square if and only if the square is outside
/// the mask.
pub proof fn law_legal_iff_place_ok(b: BoardInfo, m: u64)
    requires
        single_bit(m),
    ensures
        (spec_place_status(b, m) != PLACE_ERR) <==> m & spec_make_legal_board(b) != 0,
{
    crate::board::lemma_single_bit_meets(m, spec_make_legal_board(b));
}

/// The sign-only evaluator is the sign of the exact one, on every board.
pub proof fn law_eval_win_is_sign(b: BoardInfo)
    ensures
        spec_eval_win(b) == (if spec_eval_perfect(b) > 0 {
            1int
        } else if spec_eval_perfect(b) == 0 {
            0int
        } else {
            -1int
        }),
{
}

/// When neither side has a legal move, negamax is the bare evaluator at
/// every depth and under every window.
pub proof fn law_negamax_pass_roundtrip(alpha: int, beta: int, limit: int, b: BoardInfo, way: i8)
    requires
        spec_game_over(b),
    ensures
        spec_negamax(alpha, beta, limit, b, way) == spec_evaluate(way, b),
{
}

/// The endgame evaluators flip sign when the sides swap.
pub proof fn lemma_eval_antisym(b: BoardInfo, way: i8)
    requires
        way == EVAL_PERFECT || way == EVAL_WIN,
    ensures
        spec_evaluate(way, spec_swap(b)) == -spec_evaluate(way, b),
{
}

/// A square is set in a nonzero mask.
pub proof fn lemma_nonzero_has_bit(x: u64)
    requires
        x != 0,
    ensures
        exists|j: int| 0 <= j < 64 && #[trigger] (1u64 << (j as u64)) & x != 0,
{
    vstd::std_specs::bits::axiom_u64_trailing_zeros(x);
    let t = vstd::std_specs::bits::u64_trailing_zeros(x) as u64;
    assert((1u64 << t) & x != 0) by (bit_vector)
        requires
            t < 64 && (x >> t) & 1u64 == 1u64,
    ;
    let ti = t as int;
    assert(0 <= ti < 64 && (1u64 << (ti as u64)) & x != 0);
}

/// Every partial sweep stays inside the eligible squares it filters with.
proof fn lemma_sweep_subset(e: u64, p: u64, s: u64, j: int)
    ensures
        spec_sweep_shl_n(e, p, s, j) & !e == 0,
        spec_sweep_shr_n(e, p, s, j) & !e == 0,
    decreases j,
{
    if j <= 1 {
        assert(forall|x: u64| #[trigger] (e & x) & !e == 0) by (bit_vector);
    } else {
        lemma_sweep_subset(e, p, s, j - 1);
        let tl = spec_sweep_shl_n(e, p, s, j - 1);
        let tr = spec_sweep_shr_n(e, p, s, j - 1);
        assert((forall|x: u64| tl & !e == 0 ==> #[trigger] (tl | (e & x)) & !e == 0) && (forall|
            x: u64| tr & !e == 0 ==> #[trigger] (tr | (e & x)) & !e == 0)) by (bit_vector);
    }
}

/// A square of the `j`-step left sweep starts a walk in the matching right
/// direction that runs through opponent discs and ends on a disc of the
/// side to move.
proof fn lemma_chain_shl(
    p: u64,
    o: u64,
    e: u64,
    cm: u64,
    s: u64,
    d: i8,
    w: u64,
    j: int,
    fuel: nat,
)
    requires
        p & o == 0,
        s < 64,
        e & !o == 0,
        e & !cm == 0,
        (e >> s) & !cm == 0,
        forall|x: u64| #[trigger] spec_transfer(x, d) == (x >> s) & cm,
        single_bit(w),
        w & spec_sweep_shl_n(e, p, s, j) != 0,
        1 <= j <= 6,
        fuel >= j + 1,
    ensures
        spec_flip_closes(p, o, d, w, fuel),
        spec_flip_run(o, d, w, fuel) != 0,
    decreases j,
{
    if j <= 1 {
        assert(w & o != 0 && ((w >> s) & cm) & p != 0 && ((w >> s) & cm) & o == 0) by (bit_vector)
            requires
                w != 0 && w & ((w - 1) as u64) == 0 && w & (e & (p << s)) != 0 && e & !o == 0 && (e
                    >> s) & !cm == 0 && p & o == 0,
        ;
        assert(spec_transfer(w, d) == (w >> s) & cm);
        let wn = (w >> s) & cm;
        assert(spec_flip_closes(p, o, d, wn, (fuel - 1) as nat) == (wn & p != 0));
        assert(spec_flip_closes(p, o, d, w, fuel) == spec_flip_closes(
            p,
            o,
            d,
            wn,
            (fuel - 1) as nat,
        ));
        assert(spec_flip_run(o, d, w, fuel) == (w | spec_flip_run(o, d, wn, (fuel - 1) as nat)));
        crate::board::lemma_or_identities(w, spec_flip_run(o, d, wn, (fuel - 1) as nat));
    } else {
        let tp = spec_sweep_shl_n(e, p, s, j - 1);
        if w & tp != 0 {
            lemma_chain_shl(p, o, e, cm, s, d, w, j - 1, fuel);
        } else {
            lemma_sweep_subset(e, p, s, j - 1);
            let wn = (w >> s) & cm;
            assert(w & o != 0 && wn & tp != 0 && wn != 0 && wn & ((wn - 1) as u64) == 0)
                by (bit_vector)
                requires
                    wn == (w >> s) & cm && w != 0 && w & ((w - 1) as u64) == 0 && w & (tp | (e & (tp
                        << s))) != 0 && w & tp == 0 && e & !o == 0 && e & !cm == 0 && tp & !e == 0,
            ;
            assert(spec_transfer(w, d) == wn);
            lemma_chain_shl(p, o, e, cm, s, d, wn, j - 1, (fuel - 1) as nat);
            assert(spec_flip_closes(p, o, d, w, fuel) == spec_flip_closes(
                p,
                o,
                d,
                wn,
                (fuel - 1) as nat,
            ));
            assert(spec_flip_run(o, d, w, fuel) == (w | spec_flip_run(
                o,
                d,
                wn,
                (fuel - 1) as nat,
            )));
            crate::board::lemma_or_identities(w, spec_flip_run(o, d, wn, (fuel - 1) as nat));
        }
    }
}

/// The mirror of the chain above, for the right sweep and a left walk.
proof fn lemma_chain_shr(
    p: u64,
    o: u64,
    e: u64,
    cm: u64,
    s: u64,
    d: i8,
    w: u64,
    j: int,
    fuel: nat,
)
    requires
        p & o == 0,
        s < 64,
        e & !o == 0,
        e & !cm == 0,
        (e << s) & !cm == 0,
        forall|x: u64| #[trigger] spec_transfer(x, d) == (x << s) & cm,
        single_bit(w),
        w & spec_sweep_shr_n(e, p, s, j) != 0,
        1 <= j <= 6,
        fuel >= j + 1,
    ensures
        spec_flip_closes(p, o, d, w, fuel),
        spec_flip_run(o, d, w, fuel) != 0,
    decreases j,
{
    if j <= 1 {
        assert(w & o != 0 && ((w << s) & cm) & p != 0 && ((w << s) & cm) & o == 0) by (bit_vector)
            requires
                w != 0 && w & ((w - 1) as u64) == 0 && w & (e & (p >> s)) != 0 && e & !o == 0 && (e
                    << s) & !cm == 0 && p & o == 0,
        ;
        assert(spec_transfer(w, d) == (w << s) & cm);
        let wn = (w << s) & cm;
        assert(spec_flip_closes(p, o, d, wn, (fuel - 1) as nat) == (wn & p != 0));
        assert(spec_flip_closes(p, o, d, w, fuel) == spec_flip_closes(
            p,
            o,
            d,
            wn,
            (fuel - 1) as nat,
        ));
        assert(spec_flip_run(o, d, w, fuel) == (w | spec_flip_run(o, d, wn, (fuel - 1) as nat)));
        crate::board::lemma_or_identities(w, spec_flip_run(o, d, wn, (fuel - 1) as nat));
    } else {
        let tp = spec_sweep_shr_n(e, p, s, j - 1);
        if w & tp != 0 {
            lemma_chain_shr(p, o, e, cm, s, d, w, j - 1, fuel);
        } else {
            lemma_sweep_subset(e, p, s, j - 1);
            let wn = (w << s) & cm;
            assert(w & o != 0 && wn & tp != 0 && wn != 0 && wn & ((wn - 1) as u64) == 0)
                by (bit_vector)
                requires
                    wn == (w << s) & cm && w != 0 && w & ((w - 1) as u64) == 0 && w & (tp | (e & (tp
                        >> s))) != 0 && w & tp == 0 && e & !o == 0 && e & !cm == 0 && tp & !e == 0,
            ;
            assert(spec_transfer(w, d) == wn);
            lemma_chain_shr(p, o, e, cm, s, d, wn, j - 1, (fuel - 1) as nat);
            assert(spec_flip_closes(p, o, d, w, fuel) == spec_flip_closes(
                p,
                o,
                d,
                wn,
                (fuel - 1) as nat,
            ));
            assert(spec_flip_run(o, d, w, fuel) == (w | spec_flip_run(
                o,
                d,
                wn,
                (fuel - 1) as nat,
            )));
            crate::board::lemma_or_identities(w, spec_flip_run(o, d, wn, (fuel - 1) as nat));
        }
    }
}

/// A square in a left sweep's contribution commits a nonempty flip in the
/// matching walk direction.
proof fn lemma_dir_commit_shl(p: u64, o: u64, ee: u64, cm: u64, s: u64, d: i8, m: u64)
    requires
        p & o == 0,
        s < 64,
        single_bit(m),
        m & (spec_sweep_shl(o & ee, p, s) << s) != 0,
        (o & ee) & !cm == 0,
        ((o & ee) >> s) & !cm == 0,
        forall|x: u64| #[trigger] spec_transfer(x, d) == (x >> s) & cm,
    ensures
        spec_flip_dir(p, o, m, d) != 0,
{
    let e = o & ee;
    lemma_sweep_n(e, p, s);
    lemma_sweep_subset(e, p, s, 6);
    let t = spec_sweep_shl_n(e, p, s, 6);
    let w1 = (m >> s) & cm;
    assert(e & !o == 0 && w1 & t != 0 && w1 != 0 && w1 & ((w1 - 1) as u64) == 0) by (bit_vector)
        requires
            e == o & ee && w1 == (m >> s) & cm && m != 0 && m & ((m - 1) as u64) == 0 && m & (t
                << s) != 0 && t & !e == 0 && e & !cm == 0,
    ;
    assert(spec_transfer(m, d) == w1);
    lemma_chain_shl(p, o, e, cm, s, d, w1, 6, 8);
}

/// A square in a right sweep's contribution commits a nonempty flip in the
/// matching walk direction.
proof fn lemma_dir_commit_shr(p: u64, o: u64, ee: u64, cm: u64, s: u64, d: i8, m: u64)
    requires
        p & o == 0,
        s < 64,
        single_bit(m),
        m & (spec_sweep_shr(o & ee, p, s) >> s) != 0,
        (o & ee) & !cm == 0,
        ((o & ee) << s) & !cm == 0,
        forall|x: u64| #[trigger] spec_transfer(x, d) == (x << s) & cm,
    ensures
        spec_flip_dir(p, o, m, d) != 0,
{
    let e = o & ee;
    lemma_sweep_n(e, p, s);
    lemma_sweep_subset(e, p, s, 6);
    let t = spec_sweep_shr_n(e, p, s, 6);
    let w1 = (m << s) & cm;
    assert(e & !o == 0 && w1 & t != 0 && w1 != 0 && w1 & ((w1 - 1) as u64) == 0) by (bit_vector)
        requires
            e == o & ee && w1 == (m << s) & cm && m != 0 && m & ((m - 1) as u64) == 0 && m & (t
                >> s) != 0 && t & !e == 0 && e & !cm == 0,
    ;
    assert(spec_transfer(m, d) == w1);
    lemma_chain_shr(p, o, e, cm, s, d, w1, 6, 8);
}

/// If one direction commits a flip, the union over the directions is not
/// empty.
proof fn lemma_flips_cover(p: u64, o: u64, m: u64, d: i8, k: int)
    requires
        0 <= d < k <= 8,
        spec_flips_upto(p, o, m, k) == 0,
    ensures
        spec_flip_dir(p, o, m, d) == 0,
    decreases k,
{
    let a = spec_flips_upto(p, o, m, k - 1);
    let x = spec_flip_dir(p, o, m, (k - 1) as i8);
    assert(a | x == 0 ==> a == 0 && x == 0) by (bit_vector);
    if d < k - 1 {
        lemma_flips_cover(p, o, m, d, k - 1);
    }
}

/// Every move in the legal mask flips at least one disc, and every flipped
/// disc belonged to the opponent.
pub proof fn law_legal_move_flips(b: BoardInfo, m: u64)
    requires
        board_wf(b),
        single_bit(m),
        m & spec_make_legal_board(b) != 0,
    ensures
        spec_flips(b.player_board, b.opponent_board, m) != 0,
        spec_flips(b.player_board, b.opponent_board, m) & !b.opponent_board == 0,
{
    let p = b.player_board;
    let o = b.opponent_board;
    lemma_flips_in_opp(p, o, m, 8);
    let bl = !(p | o);
    let x1 = spec_sweep_shl(o & 0x7e7e7e7e7e7e7e7e, p, 1) << 1;
    let x2 = spec_sweep_shr(o & 0x7e7e7e7e7e7e7e7e, p, 1) >> 1;
    let x3 = spec_sweep_shl(o & 0x00FFFFFFFFFFFF00, p, 8) << 8;
    let x4 = spec_sweep_shr(o & 0x00FFFFFFFFFFFF00, p, 8) >> 8;
    let x5 = spec_sweep_shl(o & 0x007e7e7e7e7e7e00, p, 7) << 7;
    let x6 = spec_sweep_shl(o & 0x007e7e7e7e7e7e00, p, 9) << 9;
    let x7 = spec_sweep_shr(o & 0x007e7e7e7e7e7e00, p, 9) >> 9;
    let x8 = spec_sweep_shr(o & 0x007e7e7e7e7e7e00, p, 7) >> 7;
    assert(spec_make_legal_board(b) == (bl & x1) | (bl & x2) | (bl & x3) | (bl & x4) | (bl & x5) | (
    bl & x6) | (bl & x7) | (bl & x8));
    assert(m & ((bl & x1) | (bl & x2) | (bl & x3) | (bl & x4) | (bl & x5) | (bl & x6) | (bl & x7)
        | (bl & x8)) != 0 ==> (m & x1 != 0 || m & x2 != 0 || m & x3 != 0 || m & x4 != 0 || m & x5
        != 0 || m & x6 != 0 || m & x7 != 0 || m & x8 != 0)) by (bit_vector);
    assert(((o & 0x7e7e7e7e7e7e7e7eu64) & !0x7f7f7f7f7f7f7f7fu64 == 0 && ((o & 0x7e7e7e7e7e7e7e7eu64) >> 1) & !0x7f7f7f7f7f7f7f7fu64 == 0)
        && ((o & 0x7e7e7e7e7e7e7e7eu64) & !0xfefefefefefefefeu64 == 0 && ((o & 0x7e7e7e7e7e7e7e7eu64) << 1) & !0xfefefefefefefefeu64 == 0)
        && ((o & 0x00FFFFFFFFFFFF00u64) & !0x00ffffffffffffffu64 == 0 && ((o & 0x00FFFFFFFFFFFF00u64) >> 8) & !0x00ffffffffffffffu64 == 0)
        && ((o & 0x00FFFFFFFFFFFF00u64) & !0xffffffffffffff00u64 == 0 && ((o & 0x00FFFFFFFFFFFF00u64) << 8) & !0xffffffffffffff00u64 == 0)
        && ((o & 0x007e7e7e7e7e7e00u64) & !0x00fefefefefefefeu64 == 0 && ((o & 0x007e7e7e7e7e7e00u64) >> 7) & !0x00fefefefefefefeu64 == 0)
        && ((o & 0x007e7e7e7e7e7e00u64) & !0x007f7f7f7f7f7f7fu64 == 0 && ((o & 0x007e7e7e7e7e7e00u64) >> 9) & !0x007f7f7f7f7f7f7fu64 == 0)
        && ((o & 0x007e7e7e7e7e7e00u64) & !0xfefefefefefefe00u64 == 0 && ((o & 0x007e7e7e7e7e7e00u64) << 9) & !0xfefefefefefefe00u64 == 0)
        && ((o & 0x007e7e7e7e7e7e00u64) & !0x7f7f7f7f7f7f7f00u64 == 0 && ((o & 0x007e7e7e7e7e7e00u64) << 7) & !0x7f7f7f7f7f7f7f00u64 == 0)) by (bit_vector);
    if m & x1 != 0 {
        assert(forall|x: u64| #[trigger] spec_transfer(x, 2) == (x >> 1) & 0x7f7f7f7f7f7f7f7fu64);
        lemma_dir_commit_shl(p, o, 0x7e7e7e7e7e7e7e7e, 0x7f7f7f7f7f7f7f7f, 1, 2, m);
        if spec_flips(p, o, m) == 0 {
            lemma_flips_cover(p, o, m, 2, 8);
        }
    } else if m & x2 != 0 {
        assert(forall|x: u64| #[trigger] spec_transfer(x, 6) == (x << 1) & 0xfefefefefefefefeu64);
        lemma_dir_commit_shr(p, o, 0x7e7e7e7e7e7e7e7e, 0xfefefefefefefefe, 1, 6, m);
        if spec_flips(p, o, m) == 0 {
            lemma_flips_cover(p, o, m, 6, 8);
        }
    } else if m & x3 != 0 {
        assert(forall|x: u64| #[trigger] spec_transfer(x, 4) == (x >> 8) & 0x00ffffffffffffffu64);
        lemma_dir_commit_shl(p, o, 0x00FFFFFFFFFFFF00, 0x00ffffffffffffff, 8, 4, m);
        if spec_flips(p, o, m) == 0 {
            lemma_flips_cover(p, o, m, 4, 8);
        }
    } else if m & x4 != 0 {
        assert(forall|x: u64| #[trigger] spec_transfer(x, 0) == (x << 8) & 0xffffffffffffff00u64);
        lemma_dir_commit_shr(p, o, 0x00FFFFFFFFFFFF00, 0xffffffffffffff00, 8, 0, m);
        if spec_flips(p, o, m) == 0 {
            lemma_flips_cover(p, o, m, 0, 8);
        }
    } else if m & x5 != 0 {
        assert(forall|x: u64| #[trigger] spec_transfer(x, 5) == (x >> 7) & 0x00fefefefefefefeu64);
        lemma_dir_commit_shl(p, o, 0x007e7e7e7e7e7e00, 0x00fefefefefefefe, 7, 5, m);
        if spec_flips(p, o, m) == 0 {
            lemma_flips_cover(p, o, m, 5, 8);
        }
    } else if m & x6 != 0 {
        assert(forall|x: u64| #[trigger] spec_transfer(x, 3) == (x >> 9) & 0x007f7f7f7f7f7f7fu64);
        lemma_dir_commit_shl(p, o, 0x007e7e7e7e7e7e00, 0x007f7f7f7f7f7f7f, 9, 3, m);
        if spec_flips(p, o, m) == 0 {
            lemma_flips_cover(p, o, m, 3, 8);
        }
    } else if m & x7 != 0 {
        assert(forall|x: u64| #[trigger] spec_transfer(x, 7) == (x << 9) & 0xfefefefefefefe00u64);
        lemma_dir_commit_shr(p, o, 0x007e7e7e7e7e7e00, 0xfefefefefefefe00, 9, 7, m);
        if spec_flips(p, o, m) == 0 {
            lemma_flips_cover(p, o, m, 7, 8);
        }
    } else {
        assert(m & x8 != 0);
        assert(forall|x: u64| #[trigger] spec_transfer(x, 1) == (x << 7) & 0x7f7f7f7f7f7f7f00u64);
        lemma_dir_commit_shr(p, o, 0x007e7e7e7e7e7e00, 0x7f7f7f7f7f7f7f00, 7, 1, m);
        if spec_flips(p, o, m) == 0 {
            lemma_flips_cover(p, o, m, 1, 8);
        }
    }
}

/// With an endgame evaluator every leaf is a disc count, so every search
/// value lies within the count's range.
pub proof fn lemma_negamax_bounded(alpha: int, beta: int, limit: int, b: BoardInfo, way: i8)
    requires
        way == EVAL_PERFECT || way == EVAL_WIN,
    ensures
        -64 <= spec_negamax(alpha, beta, limit, b, way) <= 64,
    decreases limit, crate::search::pass_flag(b), 65int,
{
    lemma_popcount_bound(b.player_board);
    lemma_popcount_bound(b.opponent_board);
    if limit <= 0 || spec_game_over(b) {
    } else if spec_make_legal_board(b) == 0 {
        lemma_negamax_bounded(-beta, -alpha, limit, spec_swap(b), way);
    } else {
        lemma_nonzero_has_bit(spec_make_legal_board(b));
        lemma_search_moves_bounded(alpha, beta, limit, b, way, 0, i32::MIN as int);
    }
}

/// The scan's value is a search value of a child, or the running best it
/// was given; once a candidate square remains ahead, it is a child's value
/// and in range.
pub proof fn lemma_search_moves_bounded(
    alpha: int,
    beta: int,
    limit: int,
    b: BoardInfo,
    way: i8,
    i: int,
    score_max: int,
)
    requires
        way == EVAL_PERFECT || way == EVAL_WIN,
        score_max == i32::MIN || -64 <= score_max <= 64,
    ensures
        ({
            let res = spec_search_moves(alpha, beta, limit, b, way, i, score_max);
            &&& (-64 <= res <= 64 || res == score_max)
            &&& ((exists|j: int|
                i <= j < 64 && #[trigger] (1u64 << (j as u64)) & spec_make_legal_board(b) != 0) && limit > 0
                && 0 <= i ==> -64 <= res <= 64)
        }),
    decreases limit, 0int, 64 - i,
{
    if i < 0 || i >= 64 || limit <= 0 {
    } else {
        let m = 1u64 << (i as u64);
        if m & spec_make_legal_board(b) != 0 {
            let child = spec_swap(spec_apply_move(b, m));
            lemma_negamax_bounded(-beta, -alpha, limit - 1, child, way);
            let score = spec_neg_score(spec_negamax(-beta, -alpha, limit - 1, child, way));
            if score >= beta {
            } else if score > score_max {
                lemma_search_moves_bounded(
                    if alpha < score {
                        score
                    } else {
                        alpha
                    },
                    beta,
                    limit,
                    b,
                    way,
                    i + 1,
                    score,
                );
            } else {
                lemma_search_moves_bounded(alpha, beta, limit, b, way, i + 1, score_max);
            }
        } else {
            lemma_search_moves_bounded(alpha, beta, limit, b, way, i + 1, score_max);
            if exists|j: int| i <= j < 64 && #[trigger] (1u64 << (j as u64)) & spec_make_legal_board(b) != 0 {
                let j = choose|j: int|
                    i <= j < 64 && #[trigger] (1u64 << (j as u64)) & spec_make_legal_board(b) != 0;
                assert(j != i);
                assert(i + 1 <= j < 64 && (1u64 << (j as u64)) & spec_make_legal_board(b) != 0);
            }
        }
    }
}

/// With an endgame evaluator, negamax on a position where some side is
/// stuck equals the negated search of the swapped position under the
/// negated window: the pass transfers the turn and nothing else.
pub proof fn law_negamax_symmetric(alpha: int, beta: int, limit: int, b: BoardInfo, way: i8)
    requires
        way == EVAL_PERFECT || way == EVAL_WIN,
        board_wf(b),
        spec_make_legal_board(b) == 0 || spec_make_legal_board(spec_swap(b)) == 0,
    ensures
        spec_negamax(alpha, beta, limit, b, way) == -spec_negamax(
            -beta,
            -alpha,
            limit,
            spec_swap(b),
            way,
        ),
{
    let sb = spec_swap(b);
    assert(sb.player_board == b.opponent_board && sb.opponent_board == b.player_board);
    assert(spec_swap(sb).player_board == b.player_board && spec_swap(sb).opponent_board
        == b.opponent_board);
    assert(spec_swap(sb).now_turn == b.now_turn);
    assert(spec_swap(sb) == b);
    lemma_popcount_bound(b.player_board);
    lemma_popcount_bound(b.opponent_board);
    if limit <= 0 || spec_game_over(b) {
        lemma_eval_antisym(b, way);
        assert(spec_game_over(b) ==> spec_game_over(sb));
    } else if spec_make_legal_board(b) == 0 {
        lemma_negamax_bounded(-beta, -alpha, limit, sb, way);
    } else {
        lemma_negamax_bounded(alpha, beta, limit, b, way);
        assert(spec_make_legal_board(sb) == 0);
        assert(!spec_game_over(sb));
        assert(spec_negamax(-beta, -alpha, limit, sb, way) == spec_neg_score(
            spec_negamax(alpha, beta, limit, b, way),
        ));
    }
}

/// The plain search value of the scan from square `i` on, without pruning:
/// the running maximum over every candidate's negated subtree value.
pub open spec fn spec_value_moves(limit: int, b: BoardInfo, way: i8, i: int, acc: int) -> int
    decreases limit, 0int, 64 - i,
{
    if i < 0 || i >= 64 || limit <= 0 {
        acc
    } else {
        let m = 1u64 << (i as u64);
        if m & spec_make_legal_board(b) != 0 {
            let sc = spec_neg_score(spec_value(limit - 1, spec_swap(spec_apply_move(b, m)), way));
            spec_value_moves(
                limit,
                b,
                way,
                i + 1,
                if acc < sc {
                    sc
                } else {
                    acc
                },
            )
        } else {
            spec_value_moves(limit, b, way, i + 1, acc)
        }
    }
}

/// The plain depth-`limit` search value of a board, without any pruning:
/// what an exhaustive negamax would compute.
pub open spec fn spec_value(limit: int, b: BoardInfo, way: i8) -> int
    decreases limit, pass_flag(b), 65int,
{
    if limit <= 0 || spec_game_over(b) {
        spec_evaluate(way, b)
    } else if spec_make_legal_board(b) == 0 {
        spec_neg_score(spec_value(limit, spec_swap(b), way))
    } else {
        spec_value_moves(limit, b, way, 0, i32::MIN as int)
    }
}

proof fn lemma_ray_from_bound(bd: u64, corner: u64, s: u64, shr: bool, i: int)
    ensures
        0 <= spec_ray_from(bd, corner, s, shr, i) <= (if 1 <= i < 8 {
            8 - i
        } else {
            0int
        }),
    decreases 8 - i,
{
    if 1 <= i < 8 {
        lemma_ray_from_bound(bd, corner, s, shr, i + 1);
    }
}

proof fn lemma_openness_from_bound(bd: u64, empty: u64, i: int)
    ensures
        0 <= spec_openness_from(bd, empty, i) <= 8 * (if 0 <= i <= 64 {
            64 - i
        } else {
            0int
        }),
    decreases 64 - i,
{
    if 0 <= i < 64 {
        lemma_openness_from_bound(bd, empty, i + 1);
    }
}

/// Every evaluator's score is representable.
pub proof fn lemma_evaluate_range(way: i8, b: BoardInfo)
    ensures
        i32::MIN <= spec_evaluate(way, b) <= i32::MAX,
{
    assert forall|x: u64| 0 <= #[trigger] popcount(x) <= 64 by {
        lemma_popcount_bound(x);
    }
    lemma_ray_from_bound(b.player_board, 0x8000000000000000, 8, true, 1);
    lemma_ray_from_bound(b.player_board, 0x8000000000000000, 1, true, 1);
    lemma_ray_from_bound(b.player_board, 0x0100000000000000, 8, true, 1);
    lemma_ray_from_bound(b.player_board, 0x0100000000000000, 1, false, 1);
    lemma_ray_from_bound(b.player_board, 0x0000000000000001, 8, false, 1);
    lemma_ray_from_bound(b.player_board, 0x0000000000000001, 1, false, 1);
    lemma_ray_from_bound(b.player_board, 0x0000000000000080, 8, false, 1);
    lemma_ray_from_bound(b.player_board, 0x0000000000000080, 1, true, 1);
    lemma_ray_from_bound(b.opponent_board, 0x8000000000000000, 8, true, 1);
    lemma_ray_from_bound(b.opponent_board, 0x8000000000000000, 1, true, 1);
    lemma_ray_from_bound(b.opponent_board, 0x0100000000000000, 8, true, 1);
    lemma_ray_from_bound(b.opponent_board, 0x0100000000000000, 1, false, 1);
    lemma_ray_from_bound(b.opponent_board, 0x0000000000000001, 8, false, 1);
    lemma_ray_from_bound(b.opponent_board, 0x0000000000000001, 1, false, 1);
    lemma_ray_from_bound(b.opponent_board, 0x0000000000000080, 8, false, 1);
    lemma_ray_from_bound(b.opponent_board, 0x0000000000000080, 1, true, 1);
    let p = b.player_board;
    let o = b.opponent_board;
    let empty = !(p | o);
    lemma_openness_from_bound(p, empty, 0);
    lemma_openness_from_bound(o, empty, 0);
    assert(0 <= crate::eval::spec_stable_count(p) <= 56 && 0 <= crate::eval::spec_stable_count(o)
        <= 56);
    assert(0 <= crate::eval::spec_wing_count(p, empty) <= 4 && 0 <= crate::eval::spec_wing_count(
        o,
        empty,
    ) <= 4);
    assert(0 <= crate::eval::spec_x_count(p, empty) <= 4 && 0 <= crate::eval::spec_x_count(o, empty)
        <= 4);
    assert(0 <= crate::eval::spec_c_count(p, empty) <= 256 && 0 <= crate::eval::spec_c_count(
        o,
        empty,
    ) <= 256);
    assert(0 <= crate::eval::spec_openness(p, empty) <= 512 && 0 <= crate::eval::spec_openness(
        o,
        empty,
    ) <= 512);
    assert(i32::MIN <= spec_eval_normal(b) <= i32::MAX);
    assert(i32::MIN <= spec_eval_pointtable(b) <= i32::MAX);
}

proof fn lemma_negamax_range_moves(
    alpha: int,
    beta: int,
    limit: int,
    b: BoardInfo,
    way: i8,
    i: int,
    sm: int,
)
    requires
        i32::MIN <= sm <= i32::MAX,
    ensures
        i32::MIN <= spec_search_moves(alpha, beta, limit, b, way, i, sm) <= i32::MAX,
    decreases limit, 0int, 64 - i,
{
    if i < 0 || i >= 64 || limit <= 0 {
    } else {
        let m = 1u64 << (i as u64);
        if m & spec_make_legal_board(b) != 0 {
            let child = spec_swap(spec_apply_move(b, m));
            lemma_negamax_range(-beta, -alpha, limit - 1, child, way);
            let score = spec_neg_score(spec_negamax(-beta, -alpha, limit - 1, child, way));
            if score >= beta {
            } else if score > sm {
                lemma_negamax_range_moves(
                    if alpha < score {
                        score
                    } else {
                        alpha
                    },
                    beta,
                    limit,
                    b,
                    way,
                    i + 1,
                    score,
                );
            } else {
                lemma_negamax_range_moves(alpha, beta, limit, b, way, i + 1, sm);
            }
        } else {
            lemma_negamax_range_moves(alpha, beta, limit, b, way, i + 1, sm);
        }
    }
}

/// Every pruned search value is representable.
pub proof fn lemma_negamax_range(alpha: int, beta: int, limit: int, b: BoardInfo, way: i8)
    ensures
        i32::MIN <= spec_negamax(alpha, beta, limit, b, way) <= i32::MAX,
    decreases limit, pass_flag(b), 65int,
{
    if limit <= 0 || spec_game_over(b) {
        lemma_evaluate_range(way, b);
    } else if spec_make_legal_board(b) == 0 {
        lemma_negamax_range(-beta, -alpha, limit, spec_swap(b), way);
    } else {
        lemma_negamax_range_moves(alpha, beta, limit, b, way, 0, i32::MIN as int);
    }
}

proof fn lemma_value_range_moves(limit: int, b: BoardInfo, way: i8, i: int, acc: int)
    requires
        i32::MIN <= acc <= i32::MAX,
    ensures
        i32::MIN <= spec_value_moves(limit, b, way, i, acc) <= i32::MAX,
    decreases limit, 0int, 64 - i,
{
    if i < 0 || i >= 64 || limit <= 0 {
    } else {
        let m = 1u64 << (i as u64);
        if m & spec_make_legal_board(b) != 0 {
            let child = spec_swap(spec_apply_move(b, m));
            lemma_value_range(limit - 1, child, way);
            let sc = spec_neg_score(spec_value(limit - 1, child, way));
            lemma_value_range_moves(
                limit,
                b,
                way,
                i + 1,
                if acc < sc {
                    sc
                } else {
                    acc
                },
            );
        } else {
            lemma_value_range_moves(limit, b, way, i + 1, acc);
        }
    }
}

/// Every plain search value is representable.
pub proof fn lemma_value_range(limit: int, b: BoardInfo, way: i8)
    ensures
        i32::MIN <= spec_value(limit, b, way) <= i32::MAX,
    decreases limit, pass_flag(b), 65int,
{
    if limit <= 0 || spec_game_over(b) {
        lemma_evaluate_range(way, b);
    } else if spec_make_legal_board(b) == 0 {
        lemma_value_range(limit, spec_swap(b), way);
    } else {
        lemma_value_range_moves(limit, b, way, 0, i32::MIN as int);
    }
}

proof fn lemma_value_moves_ge(limit: int, b: BoardInfo, way: i8, i: int, acc: int)
    ensures
        spec_value_moves(limit, b, way, i, acc) >= acc,
    decreases 64 - i,
{
    if i < 0 || i >= 64 || limit <= 0 {
    } else {
        let m = 1u64 << (i as u64);
        if m & spec_make_legal_board(b) != 0 {
            let sc = spec_neg_score(spec_value(limit - 1, spec_swap(spec_apply_move(b, m)), way));
            lemma_value_moves_ge(
                limit,
                b,
                way,
                i + 1,
                if acc < sc {
                    sc
                } else {
                    acc
                },
            );
        } else {
            lemma_value_moves_ge(limit, b, way, i + 1, acc);
        }
    }
}

/// The scan's half of the pruning law.  `sm` is the pruned running best,
/// `acc` the true one; the window's lower bound is the larger of `alpha0`
/// and `sm`.  Before any candidate has beaten `alpha0` the pruned best only
/// bounds the true best from above; as soon as one does, the two agree.
proof fn lemma_alphabeta_moves(
    alpha0: int,
    beta: int,
    limit: int,
    b: BoardInfo,
    way: i8,
    i: int,
    sm: int,
    acc: int,
)
    requires
        i32::MIN < alpha0,
        alpha0 < beta,
        beta <= i32::MAX,
        limit >= 1,
        i32::MIN <= sm < beta,
        i32::MIN <= acc <= sm,
        sm > alpha0 ==> acc == sm,
    ensures
        ({
            let al = if alpha0 < sm {
                sm
            } else {
                alpha0
            };
            let rr = spec_search_moves(al, beta, limit, b, way, i, sm);
            let vv = spec_value_moves(limit, b, way, i, acc);
            &&& (rr >= beta ==> vv >= rr)
            &&& (rr < beta ==> vv <= rr)
            &&& (alpha0 < rr && rr < beta ==> vv == rr)
        }),
    decreases limit, 0int, 64 - i,
{
    let al = if alpha0 < sm {
        sm
    } else {
        alpha0
    };
    if i < 0 || i >= 64 {
    } else {
        let m = 1u64 << (i as u64);
        if m & spec_make_legal_board(b) != 0 {
            let child = spec_swap(spec_apply_move(b, m));
            law_alphabeta(-beta, -al, limit - 1, child, way);
            lemma_negamax_range(-beta, -al, limit - 1, child, way);
            lemma_value_range(limit - 1, child, way);
            let rp = spec_negamax(-beta, -al, limit - 1, child, way);
            let vp = spec_value(limit - 1, child, way);
            let s = spec_neg_score(rp);
            let sv = spec_neg_score(vp);
            if s >= beta {
                assert(rp <= -beta);
                assert(vp <= rp);
                assert(sv >= s);
                let acc2 = if acc < sv {
                    sv
                } else {
                    acc
                };
                lemma_value_moves_ge(limit, b, way, i + 1, acc2);
            } else {
                let sm2 = if s > sm {
                    s
                } else {
                    sm
                };
                let acc2 = if acc < sv {
                    sv
                } else {
                    acc
                };
                if s <= al {
                    assert(rp >= -al);
                    assert(vp >= rp);
                    assert(sv <= s);
                } else {
                    assert(-beta < rp && rp < -al);
                    assert(rp == vp);
                    assert(s == sv);
                }
                lemma_alphabeta_moves(alpha0, beta, limit, b, way, i + 1, sm2, acc2);
                assert(spec_search_moves(al, beta, limit, b, way, i, sm) == spec_search_moves(
                    if alpha0 < sm2 {
                        sm2
                    } else {
                        alpha0
                    },
                    beta,
                    limit,
                    b,
                    way,
                    i + 1,
                    sm2,
                ));
                assert(spec_value_moves(limit, b, way, i, acc) == spec_value_moves(
                    limit,
                    b,
                    way,
                    i + 1,
                    acc2,
                ));
            }
        } else {
            lemma_alphabeta_moves(alpha0, beta, limit, b, way, i + 1, sm, acc);
        }
    }
}

/// The pruning law: fail-soft alpha-beta agrees with the exhaustive search.
/// Within the window the pruned value is the true value; a value at or
/// under `alpha` bounds the true value from above, one at or over `beta`
/// bounds it from below.
pub proof fn law_alphabeta(alpha: int, beta: int, limit: int, b: BoardInfo, way: i8)
    requires
        i32::MIN < alpha,
        alpha < beta,
        beta <= i32::MAX,
    ensures
        ({
            let r = spec_negamax(alpha, beta, limit, b, way);
            let v = spec_value(limit, b, way);
            &&& (r >= beta ==> v >= r)
            &&& (r <= alpha ==> v <= r)
            &&& (alpha < r && r < beta ==> r == v)
        }),
    decreases limit, pass_flag(b), 65int,
{
    if limit <= 0 || spec_game_over(b) {
    } else if spec_make_legal_board(b) == 0 {
        law_alphabeta(-beta, -alpha, limit, spec_swap(b), way);
        lemma_negamax_range(-beta, -alpha, limit, spec_swap(b), way);
        lemma_value_range(limit, spec_swap(b), way);
    } else {
        lemma_alphabeta_moves(alpha, beta, limit, b, way, 0, i32::MIN as int, i32::MIN as int);
    }
}

/// The best score the root scan settles on from square `i` on, mirroring
/// `spec_choose_from` move for move.
pub open spec fn spec_choose_score(b: BoardInfo, way: i8, limit: int, i: int, best_score: int) -> int
    decreases 64 - i,
{
    if i < 0 || i >= 64 {
        best_score
    } else {
        let m = 1u64 << (i as u64);
        if m & spec_make_legal_board(b) != 0 {
            let sc = crate::search::spec_root_score(b, m, limit, way);
            if way == crate::eval::EVAL_WIN && sc == 1 {
                sc
            } else if sc > best_score {
                spec_choose_score(b, way, limit, i + 1, sc)
            } else {
                spec_choose_score(b, way, limit, i + 1, best_score)
            }
        } else {
            spec_choose_score(b, way, limit, i + 1, best_score)
        }
    }
}

proof fn lemma_choose_from_max(
    b: BoardInfo,
    way: i8,
    limit: int,
    i: int,
    best: u64,
    best_score: int,
)
    requires
        0 <= i,
        way != crate::eval::EVAL_WIN,
        best_score == i32::MIN || best_score == crate::search::spec_root_score(
            b,
            best,
            limit,
            way,
        ),
    ensures
        ({
            let r = crate::search::spec_choose_from(b, way, limit, i, best, best_score);
            let rs = spec_choose_score(b, way, limit, i, best_score);
            &&& rs >= best_score
            &&& (rs == best_score && r == best) || rs == crate::search::spec_root_score(
                b,
                r,
                limit,
                way,
            )
            &&& forall|j: int|
                i <= j < 64 && #[trigger] ((1u64 << (j as u64)) & spec_make_legal_board(b)) != 0
                    ==> crate::search::spec_root_score(b, 1u64 << (j as u64), limit, way) <= rs
        }),
    decreases 64 - i,
{
    if i < 0 || i >= 64 {
    } else {
        let m = 1u64 << (i as u64);
        if m & spec_make_legal_board(b) != 0 {
            let sc = crate::search::spec_root_score(b, m, limit, way);
            if sc > best_score {
                lemma_choose_from_max(b, way, limit, i + 1, m, sc);
                assert(crate::search::spec_choose_from(b, way, limit, i, best, best_score)
                    == crate::search::spec_choose_from(b, way, limit, i + 1, m, sc));
                assert(spec_choose_score(b, way, limit, i, best_score) == spec_choose_score(
                    b,
                    way,
                    limit,
                    i + 1,
                    sc,
                ));
            } else {
                lemma_choose_from_max(b, way, limit, i + 1, best, best_score);
                assert(crate::search::spec_choose_from(b, way, limit, i, best, best_score)
                    == crate::search::spec_choose_from(b, way, limit, i + 1, best, best_score));
                assert(spec_choose_score(b, way, limit, i, best_score) == spec_choose_score(
                    b,
                    way,
                    limit,
                    i + 1,
                    best_score,
                ));
            }
        } else {
            lemma_choose_from_max(b, way, limit, i + 1, best, best_score);
        }
    }
}

/// Outside win-only mode the decider maximises: when a search is needed,
/// every legal root move scores at most what the chosen move scores.
pub proof fn law_choose_root_move_best(b: BoardInfo, way: i8, limit: int)
    requires
        way != crate::eval::EVAL_WIN,
        spec_make_legal_board(b) != 0,
        popcount(spec_make_legal_board(b)) != 1,
    ensures
        ({
            let r = crate::search::spec_choose_root_move(b, way, limit);
            forall|j: int|
                0 <= j < 64 && #[trigger] ((1u64 << (j as u64)) & spec_make_legal_board(b)) != 0
                    ==> crate::search::spec_root_score(b, 1u64 << (j as u64), limit, way)
                    <= crate::search::spec_root_score(b, r, limit, way)
        }),
{
    let legal = spec_make_legal_board(b);
    lemma_choose_from_max(b, way, limit, 0, 0, i32::MIN as int);
    let r = crate::search::spec_choose_from(b, way, limit, 0, 0, i32::MIN as int);
    let rs = spec_choose_score(b, way, limit, 0, i32::MIN as int);
    lemma_nonzero_has_bit(legal);
    let j0 = choose|j: int| 0 <= j < 64 && #[trigger] ((1u64 << (j as u64)) & legal) != 0;
    let child = spec_swap(spec_apply_move(b, 1u64 << (j0 as u64)));
    lemma_negamax_range(i32::MIN + 1, i32::MAX - 1, limit - 1, child, way);
    assert(crate::search::spec_root_score(b, 1u64 << (j0 as u64), limit, way) > i32::MIN);
    assert(rs == crate::search::spec_root_score(b, r, limit, way));
}

} // verus!
