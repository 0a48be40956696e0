//! Legal-move generation: eight directional bit-parallel sweeps.

use vstd::prelude::*;
use crate::board::BoardInfo;

verus! {

/// Moves every set bit of `place_bit` one square in direction `direc`
/// (0 up, 1 up-right, 2 right, 3 down-right, 4 down, 5 down-left, 6 left,
/// 7 up-left); bits that would leave the board are cleared.
pub open spec fn spec_transfer(place_bit: u64, direc: i8) -> u64 {
    if direc == 0 {
        (place_bit << 8) & 0xffffffffffffff00u64
    } else if direc == 1 {
        (place_bit << 7) & 0x7f7f7f7f7f7f7f00u64
    } else if direc == 2 {
        (place_bit >> 1) & 0x7f7f7f7f7f7f7f7fu64
    } else if direc == 3 {
        (place_bit >> 9) & 0x007f7f7f7f7f7f7fu64
    } else if direc == 4 {
        (place_bit >> 8) & 0x00ffffffffffffffu64
    } else if direc == 5 {
        (place_bit >> 7) & 0x00fefefefefefefeu64
    } else if direc == 6 {
        (place_bit << 1) & 0xfefefefefefefefeu64
    } else {
        (place_bit << 9) & 0xfefefefefefefe00u64
    }
}

/// Moves a bit one square in the given direction, clipping at the edges.
pub fn transfer(place_bit: &u64, direc: &i8) -> (r: u64)
    requires
        0 <= *direc < 8,
    ensures
        r == spec_transfer(*place_bit, *direc),
{
    match *direc {
        0 => (*place_bit << 8) & 0xffffffffffffff00,
        1 => (*place_bit << 7) & 0x7f7f7f7f7f7f7f00,
        2 => (*place_bit >> 1) & 0x7f7f7f7f7f7f7f7f,
        3 => (*place_bit >> 9) & 0x007f7f7f7f7f7f7f,
        4 => (*place_bit >> 8) & 0x00ffffffffffffff,
        5 => (*place_bit >> 7) & 0x00fefefefefefefe,
        6 => (*place_bit << 1) & 0xfefefefefefefefe,
        _ => (*place_bit << 9) & 0xfefefefefefefe00,
    }
}

/// Six left shifts by `s` through the eligible opponent squares `side`,
/// starting from the side-to-move discs `p`: the union of the opponent runs
/// that touch a `p` disc from the shifted-away direction.
pub open spec fn spec_sweep_shl(side: u64, p: u64, s: u64) -> u64 {
    let t1 = side & (p << s);
    let t2 = t1 | (side & (t1 << s));
    let t3 = t2 | (side & (t2 << s));
    let t4 = t3 | (side & (t3 << s));
    let t5 = t4 | (side & (t4 << s));
    let t6 = t5 | (side & (t5 << s));
    t6
}

/// The same sweep with right shifts.
pub open spec fn spec_sweep_shr(side: u64, p: u64, s: u64) -> u64 {
    let t1 = side & (p >> s);
    let t2 = t1 | (side & (t1 >> s));
    let t3 = t2 | (side & (t2 >> s));
    let t4 = t3 | (side & (t3 >> s));
    let t5 = t4 | (side & (t4 >> s));
    let t6 = t5 | (side & (t5 >> s));
    t6
}

/// The left sweep cut off after `j` of its six shifts.
pub open spec fn spec_sweep_shl_n(side: u64, p: u64, s: u64, j: int) -> u64
    decreases j,
{
    if j <= 1 {
        side & (p << s)
    } else {
        let t = spec_sweep_shl_n(side, p, s, j - 1);
        t | (side & (t << s))
    }
}

/// The right sweep cut off after `j` of its six shifts.
pub open spec fn spec_sweep_shr_n(side: u64, p: u64, s: u64, j: int) -> u64
    decreases j,
{
    if j <= 1 {
        side & (p >> s)
    } else {
        let t = spec_sweep_shr_n(side, p, s, j - 1);
        t | (side & (t >> s))
    }
}

/// The full sweeps are their six-step cutoffs.
pub proof fn lemma_sweep_n(side: u64, p: u64, s: u64)
    ensures
        spec_sweep_shl(side, p, s) == spec_sweep_shl_n(side, p, s, 6),
        spec_sweep_shr(side, p, s) == spec_sweep_shr_n(side, p, s, 6),
{
    reveal_with_fuel(spec_sweep_shl_n, 8);
    reveal_with_fuel(spec_sweep_shr_n, 8);
}

/// The mask of empty squares on which the side to move has at least one
/// legal placement: for each of the eight directions, the squares one step
/// beyond a swept opponent run.
pub open spec fn spec_legal_board(p: u64, o: u64) -> u64 {
    let horizontal_side = o & 0x7e7e7e7e7e7e7e7eu64;
    let vertical_side = o & 0x00FFFFFFFFFFFF00u64;
    let all_side = o & 0x007e7e7e7e7e7e00u64;
    let blank_board = !(p | o);
    (blank_board & (spec_sweep_shl(horizontal_side, p, 1) << 1)) | (blank_board & (
    spec_sweep_shr(horizontal_side, p, 1) >> 1)) | (blank_board & (spec_sweep_shl(
        vertical_side,
        p,
        8,
    ) << 8)) | (blank_board & (spec_sweep_shr(vertical_side, p, 8) >> 8)) | (blank_board & (
    spec_sweep_shl(all_side, p, 7) << 7)) | (blank_board & (spec_sweep_shl(all_side, p, 9) << 9)) | (
    blank_board & (spec_sweep_shr(all_side, p, 9) >> 9)) | (blank_board & (spec_sweep_shr(
        all_side,
        p,
        7,
    ) >> 7))
}

/// The legal-move mask of the board's side to move.
pub open spec fn spec_make_legal_board(b: BoardInfo) -> u64 {
    spec_legal_board(b.player_board, b.opponent_board)
}

fn sweep_shl(side: u64, p: u64, s: u64) -> (r: u64)
    requires
        s < 64,
    ensures
        r == spec_sweep_shl(side, p, s),
{
    let mut tmp: u64 = side & (p << s);
    tmp = tmp | (side & (tmp << s));
    tmp = tmp | (side & (tmp << s));
    tmp = tmp | (side & (tmp << s));
    tmp = tmp | (side & (tmp << s));
    tmp = tmp | (side & (tmp << s));
    tmp
}

fn sweep_shr(side: u64, p: u64, s: u64) -> (r: u64)
    requires
        s < 64,
    ensures
        r == spec_sweep_shr(side, p, s),
{
    let mut tmp: u64 = side & (p >> s);
    tmp = tmp | (side & (tmp >> s));
    tmp = tmp | (side & (tmp >> s));
    tmp = tmp | (side & (tmp >> s));
    tmp = tmp | (side & (tmp >> s));
    tmp = tmp | (side & (tmp >> s));
    tmp
}

/// Computes the mask of squares on which the side to move may place a disc.
pub fn make_legal_board(board_info: &BoardInfo) -> (r: u64)
    ensures
        r == spec_make_legal_board(*board_info),
{
    let horizontal_side: u64 = board_info.opponent_board & 0x7e7e7e7e7e7e7e7e;
    let vertical_side: u64 = board_info.opponent_board & 0x00FFFFFFFFFFFF00;
    let all_side: u64 = board_info.opponent_board & 0x007e7e7e7e7e7e00;
    let blank_board: u64 = !(board_info.player_board | board_info.opponent_board);
    let p = board_info.player_board;

    let mut legal_board: u64 = blank_board & (sweep_shl(horizontal_side, p, 1) << 1u64);
    legal_board |= blank_board & (sweep_shr(horizontal_side, p, 1) >> 1u64);
    legal_board |= blank_board & (sweep_shl(vertical_side, p, 8) << 8u64);
    legal_board |= blank_board & (sweep_shr(vertical_side, p, 8) >> 8u64);
    legal_board |= blank_board & (sweep_shl(all_side, p, 7) << 7u64);
    legal_board |= blank_board & (sweep_shl(all_side, p, 9) << 9u64);
    legal_board |= blank_board & (sweep_shr(all_side, p, 9) >> 9u64);
    legal_board |= blank_board & (sweep_shr(all_side, p, 7) >> 7u64);
    legal_board
}

/// The legal-move mask holds only empty squares.
pub proof fn lemma_legal_in_blank(p: u64, o: u64)
    ensures
        spec_legal_board(p, o) & (p | o) == 0,
{
    let hs = o & 0x7e7e7e7e7e7e7e7eu64;
    let vs = o & 0x00FFFFFFFFFFFF00u64;
    let als = o & 0x007e7e7e7e7e7e00u64;
    let bl = !(p | o);
    let x1 = spec_sweep_shl(hs, p, 1) << 1;
    let x2 = spec_sweep_shr(hs, p, 1) >> 1;
    let x3 = spec_sweep_shl(vs, p, 8) << 8;
    let x4 = spec_sweep_shr(vs, p, 8) >> 8;
    let x5 = spec_sweep_shl(als, p, 7) << 7;
    let x6 = spec_sweep_shl(als, p, 9) << 9;
    let x7 = spec_sweep_shr(als, p, 9) >> 9;
    let x8 = spec_sweep_shr(als, p, 7) >> 7;
    assert(spec_legal_board(p, o) == (bl & x1) | (bl & x2) | (bl & x3) | (bl & x4) | (bl & x5) | (bl
        & x6) | (bl & x7) | (bl & x8));
    assert(((bl & x1) | (bl & x2) | (bl & x3) | (bl & x4) | (bl & x5) | (bl & x6) | (bl & x7) | (bl
        & x8)) & (p | o) == 0) by (bit_vector)
        requires
            bl == !(p | o),
    ;
}

} // verus!
