//! Placing a disc: directional flip walks and the in-place board update.

use vstd::prelude::*;
use crate::board::{BoardInfo, TURN_CHANGE_FACTOR, spec_swap, board_wf, single_bit};
use crate::moves::{
    spec_transfer,
    spec_make_legal_board,
    spec_legal_board,
    transfer,
    make_legal_board,
    lemma_legal_in_blank,
};

verus! {

pub const CONTINUE: i8 = 0;
pub const PLACE_ERR: i8 = -1;
pub const GAME_SET: i8 = 1;

/// The squares walked outward from `t` through opponent discs `o` in
/// direction `dir`, stopping after at most `fuel` steps (eight steps always
/// leave the board).
pub open spec fn spec_flip_run(o: u64, dir: i8, t: u64, fuel: nat) -> u64
    decreases fuel,
{
    if fuel > 0 && t & o != 0 {
        t | spec_flip_run(o, dir, spec_transfer(t, dir), (fuel - 1) as nat)
    } else {
        0
    }
}

/// Whether the walk outward from `t` through opponent discs ends on a disc
/// of the side to move, so that the walked squares are bracketed.
pub open spec fn spec_flip_closes(p: u64, o: u64, dir: i8, t: u64, fuel: nat) -> bool
    decreases fuel,
{
    if fuel > 0 && t & o != 0 {
        spec_flip_closes(p, o, dir, spec_transfer(t, dir), (fuel - 1) as nat)
    } else {
        t & p != 0
    }
}

/// The discs flipped in direction `dir` by a disc placed on `m`: the walked
/// opponent run, if it is bracketed by a disc of the side to move.
pub open spec fn spec_flip_dir(p: u64, o: u64, m: u64, dir: i8) -> u64 {
    if spec_flip_closes(p, o, dir, spec_transfer(m, dir), 8) {
        spec_flip_run(o, dir, spec_transfer(m, dir), 8)
    } else {
        0
    }
}

/// The flips committed by the first `k` directions.
pub open spec fn spec_flips_upto(p: u64, o: u64, m: u64, k: int) -> u64
    decreases k,
{
    if k <= 0 {
        0
    } else {
        spec_flips_upto(p, o, m, k - 1) | spec_flip_dir(p, o, m, (k - 1) as i8)
    }
}

/// All discs flipped by a disc placed on `m`, over the eight directions.
pub open spec fn spec_flips(p: u64, o: u64, m: u64) -> u64 {
    spec_flips_upto(p, o, m, 8)
}

/// The board after the side to move plays the legal square `m`: the placed
/// disc and the flipped run join the side's mask, the flipped run leaves the
/// opponent's mask, and the move count grows by one.  The side tag does not
/// change; the caller swaps sides afterwards.
pub open spec fn spec_apply_move(b: BoardInfo, m: u64) -> BoardInfo {
    let rev = spec_flips(b.player_board, b.opponent_board, m);
    BoardInfo {
        now_turn: b.now_turn,
        now_index: (b.now_index + 1) as i8,
        player_board: b.player_board ^ (m | rev),
        opponent_board: b.opponent_board ^ rev,
    }
}

/// One directional step keeps a single square a single square, or moves it
/// off the board.
pub proof fn lemma_transfer_single(t: u64, dir: i8)
    requires
        single_bit(t),
        0 <= dir < 8,
    ensures
        spec_transfer(t, dir) == 0 || single_bit(spec_transfer(t, dir)),
{
    assert((forall|s: u64, mk: u64|
        s < 64 ==> (((t << s) & mk) == 0 || (((t << s) & mk) != 0 && ((t << s) & mk) & (((((t << s)
            & mk) - 1)) as u64) == 0))) && (forall|s: u64, mk: u64|
        s < 64 ==> (((t >> s) & mk) == 0 || (((t >> s) & mk) != 0 && ((t >> s) & mk) & (((((t >> s)
            & mk) - 1)) as u64) == 0)))) by (bit_vector)
        requires
            t != 0 && t & ((t - 1) as u64) == 0,
    ;
}

/// The walked run of a single-square walk stays inside the opponent discs.
pub proof fn lemma_run_in_opp(o: u64, dir: i8, t: u64, fuel: nat)
    requires
        t == 0 || single_bit(t),
        0 <= dir < 8,
    ensures
        spec_flip_run(o, dir, t, fuel) & !o == 0,
    decreases fuel,
{
    if fuel > 0 && t & o != 0 {
        assert(t != 0 && (t & ((t - 1) as u64) == 0 ==> forall|rest: u64|
            rest & !o == 0 ==> #[trigger] ((t | rest) & !o) == 0)) by (bit_vector)
            requires
                t & o != 0,
        ;
        lemma_transfer_single(t, dir);
        lemma_run_in_opp(o, dir, spec_transfer(t, dir), (fuel - 1) as nat);
    } else {
        crate::board::lemma_or_identities(0, o);
    }
}

/// All flips of a single placed disc lie on opponent discs.
pub proof fn lemma_flips_in_opp(p: u64, o: u64, m: u64, k: int)
    requires
        single_bit(m),
        k <= 8,
    ensures
        spec_flips_upto(p, o, m, k) & !o == 0,
    decreases k,
{
    if k <= 0 {
        crate::board::lemma_or_identities(0, o);
    } else {
        lemma_flips_in_opp(p, o, m, k - 1);
        let dir = (k - 1) as i8;
        lemma_transfer_single(m, dir);
        lemma_run_in_opp(o, dir, spec_transfer(m, dir), 8);
        let a = spec_flips_upto(p, o, m, k - 1);
        let d = spec_flip_dir(p, o, m, dir);
        assert((a & !o == 0 && (d & !o == 0 || d == 0) ==> (a | d) & !o == 0) && (a & !o == 0 && d
            == 0u64 ==> (a | d) & !o == 0)) by (bit_vector);
    }
}

/// Placing a single legal disc keeps the board well formed: the placed
/// square was empty and every flipped square moves from one side to the
/// other.
pub proof fn lemma_place_preserves_wf(b: BoardInfo, m: u64)
    requires
        board_wf(b),
        single_bit(m),
        m & spec_make_legal_board(b) == m,
    ensures
        board_wf(spec_apply_move(b, m)),
{
    let p = b.player_board;
    let o = b.opponent_board;
    lemma_legal_in_blank(p, o);
    let legal = spec_legal_board(p, o);
    lemma_flips_in_opp(p, o, m, 8);
    let rev = spec_flips(p, o, m);
    assert((m & (p | o) == 0) && ((p ^ (m | rev)) & (o ^ rev) == 0)) by (bit_vector)
        requires
            p & o == 0 && rev & !o == 0 && m & legal == m && legal & (p | o) == 0,
    ;
}

/// Neither side has a legal move.
pub open spec fn spec_game_over(b: BoardInfo) -> bool {
    spec_make_legal_board(b) == 0 && spec_make_legal_board(spec_swap(b)) == 0
}

/// Whether the game has ended because neither side can place a disc.
pub fn is_game_over(board_info: &BoardInfo) -> (r: bool)
    requires
        board_info.now_turn != i8::MIN,
    ensures
        r == spec_game_over(*board_info),
{
    let player_legal_board = make_legal_board(board_info);
    let mut tmp_board_info = board_info.clone();
    crate::board::swap(&mut tmp_board_info);
    let opponent_legal_board = make_legal_board(&tmp_board_info);
    player_legal_board == 0 && opponent_legal_board == 0
}

/// The status `place` reports: an ungranted pass or an illegal square is an
/// error, a granted pass with a stuck opponent or a sixtieth move ends the
/// game, and anything else lets play continue.
pub open spec fn spec_place_status(b: BoardInfo, m: u64) -> i8 {
    let legal = spec_make_legal_board(b);
    if m == 0 {
        if legal == 0 {
            if spec_game_over(b) {
                GAME_SET
            } else {
                CONTINUE
            }
        } else {
            PLACE_ERR
        }
    } else if m & legal == m {
        if b.now_index + 1 > 60 {
            GAME_SET
        } else {
            CONTINUE
        }
    } else {
        PLACE_ERR
    }
}

/// Attempts to play `place_bit` for the side to move.  A zero mask asks for
/// a pass, which is granted only when no legal move exists; a set square
/// must lie in the legal-move mask.  On a successful placement the board is
/// updated in place and the status says whether the game goes on.
pub fn place(place_bit: u64, board_info: &mut BoardInfo) -> (r: i8)
    requires
        old(board_info).now_index < i8::MAX,
        old(board_info).now_turn != i8::MIN,
    ensures
        r == spec_place_status(*old(board_info), place_bit),
        ({
            let legal = spec_make_legal_board(*old(board_info));
            &&& (place_bit == 0 && legal == 0 && spec_game_over(*old(board_info)) ==> r == GAME_SET
                && *final(board_info) == *old(board_info))
            &&& (place_bit == 0 && legal == 0 && !spec_game_over(*old(board_info)) ==> r == CONTINUE
                && *final(board_info) == *old(board_info))
            &&& (place_bit == 0 && legal != 0 ==> r == PLACE_ERR && *final(board_info) == *old(board_info))
            &&& (place_bit != 0 && place_bit & legal == place_bit ==> *final(board_info)
                == spec_apply_move(*old(board_info), place_bit) && r == (
            if old(board_info).now_index + 1 > 60 {
                GAME_SET
            } else {
                CONTINUE
            }))
            &&& (place_bit != 0 && place_bit & legal != place_bit ==> r == PLACE_ERR
                && *final(board_info) == *old(board_info))
        }),
{
    let legal_board: u64 = make_legal_board(board_info);

    if place_bit == 0 {
        if legal_board == 0 {
            proof {
                assert(-127 <= board_info.now_turn * TURN_CHANGE_FACTOR <= 127) by (nonlinear_arith)
                    requires -127 <= board_info.now_turn <= 127;
            }
            let tmp_board_info: BoardInfo = BoardInfo {
                now_turn: board_info.now_turn * TURN_CHANGE_FACTOR,
                now_index: board_info.now_index,
                player_board: board_info.opponent_board,
                opponent_board: board_info.player_board,
            };
            if make_legal_board(&tmp_board_info) == 0 {
                return GAME_SET;
            }
            return CONTINUE;
        } else {
            return PLACE_ERR;
        }
    }

    if (place_bit & legal_board) == place_bit {
        let ghost p0 = board_info.player_board;
        let ghost o0 = board_info.opponent_board;
        let mut rev: u64 = 0;
        let mut k: i8 = 0;
        while k < 8
            invariant
                0 <= k <= 8,
                rev == spec_flips_upto(p0, o0, place_bit, k as int),
                board_info.player_board == p0,
                board_info.opponent_board == o0,
            decreases 8 - k,
        {
            let mut rev_sub: u64 = 0;
            let mut tmp: u64 = transfer(&place_bit, &k);
            let ghost t0 = tmp;
            let mut fuel: u64 = 8;
            proof {
                crate::board::lemma_or_identities(spec_flip_run(o0, k, t0, 8), 0);
            }
            while fuel > 0 && (tmp & board_info.opponent_board) != 0
                invariant
                    0 <= k < 8,
                    fuel <= 8,
                    board_info.player_board == p0,
                    board_info.opponent_board == o0,
                    spec_flip_closes(p0, o0, k, t0, 8) == spec_flip_closes(
                        p0,
                        o0,
                        k,
                        tmp,
                        fuel as nat,
                    ),
                    spec_flip_run(o0, k, t0, 8) == rev_sub | spec_flip_run(o0, k, tmp, fuel as nat),
                decreases fuel,
            {
                let ghost rs_old = rev_sub;
                let ghost tmp_old = tmp;
                rev_sub |= tmp;
                tmp = transfer(&tmp, &k);
                fuel = fuel - 1;
                proof {
                    assert(forall|a: u64, t: u64, x: u64| (a | t) | x == a | (t | x))
                        by (bit_vector);
                    assert(spec_flip_run(o0, k, tmp_old, (fuel + 1) as nat) == tmp_old
                        | spec_flip_run(o0, k, tmp, fuel as nat));
                }
            }
            proof {
                assert(spec_flip_run(o0, k, tmp, fuel as nat) == 0);
                crate::board::lemma_or_identities(rev_sub, 0);
                assert(spec_flip_run(o0, k, t0, 8) == rev_sub);
                assert(spec_flip_closes(p0, o0, k, t0, 8) == (tmp & p0 != 0));
            }
            if (tmp & board_info.player_board) != 0 {
                rev |= rev_sub;
            }
            proof {
                assert(rev == spec_flips_upto(p0, o0, place_bit, k as int) | spec_flip_dir(
                    p0,
                    o0,
                    place_bit,
                    k,
                ) || rev == spec_flips_upto(p0, o0, place_bit, k as int));
                crate::board::lemma_or_identities(spec_flips_upto(p0, o0, place_bit, k as int), 0);
            }
            k += 1;
        }
        board_info.player_board ^= place_bit | rev;
        board_info.opponent_board ^= rev;

        board_info.now_index += 1;
        if board_info.now_index > 60 {
            return GAME_SET;
        }
    } else {
        return PLACE_ERR;
    }

    CONTINUE
}

} // verus!
