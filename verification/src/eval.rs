//! The four evaluation functions.  Every evaluator scores a board from the
//! perspective of the side to move; higher is better.

use vstd::prelude::*;
use crate::board::{BoardInfo, board_wf, popcount, count_bits};
use crate::moves::{spec_legal_board, make_legal_board};

verus! {

pub const EVAL_BY_POINTTABLE: i8 = -1;
pub const EVAL_NORMAL: i8 = 0;
pub const EVAL_PERFECT: i8 = 1;
pub const EVAL_WIN: i8 = 2;

pub const EVAL_BY_POINTTABLE_DEPTH: i8 = 8;
pub const EVAL_NORMAL_DEPTH: i8 = 8;
pub const EVAL_PERFECT_DEPTH: i8 = 16;
pub const EVAL_WIN_DEPTH: i8 = 18;

pub const WEIGHT_STABLE: i32 = 101;
pub const WEIGHT_WING: i32 = -308;
pub const WEIGHT_XMOVE: i32 = -449;
pub const WEIGHT_CMOVE: i32 = -552;
pub const WEIGHT_MOBILITY: i32 = 134;
pub const WEIGHT_OPENNESS: i32 = -13;

/// The larger of two scores.
pub fn max(a: i32, b: i32) -> (r: i32)
    ensures
        r == (if a < b {
            b
        } else {
            a
        }),
{
    if a < b {
        b
    } else {
        a
    }
}

/// Exact disc differential: discs of the side to move minus discs of the
/// opponent.
pub open spec fn spec_eval_perfect(b: BoardInfo) -> int {
    popcount(b.player_board) - popcount(b.opponent_board)
}

/// Scores a board by the exact disc differential.
pub fn eval_perfect(board_info: &BoardInfo) -> (r: i32)
    ensures
        r == spec_eval_perfect(*board_info),
{
    proof {
        crate::board::lemma_popcount_bound(board_info.player_board);
        crate::board::lemma_popcount_bound(board_info.opponent_board);
    }
    count_bits(board_info.player_board) as i32 - count_bits(board_info.opponent_board) as i32
}

/// The sign of the disc differential: 1 for a won count, 0 for a drawn
/// count, -1 for a lost count.
pub open spec fn spec_eval_win(b: BoardInfo) -> int {
    if spec_eval_perfect(b) > 0 {
        1
    } else if spec_eval_perfect(b) == 0 {
        0
    } else {
        -1
    }
}

/// Scores a board by win, draw or loss only.
pub fn eval_win(board_info: &BoardInfo) -> (r: i32)
    ensures
        r == spec_eval_win(*board_info),
{
    let diff = eval_perfect(board_info);
    if diff > 0 {
        1
    } else if diff == 0 {
        0
    } else {
        -1
    }
}

/// Fixed per-square weights summed for the side to move minus the same sum
/// for the opponent.
pub open spec fn spec_eval_pointtable(b: BoardInfo) -> int {
    let p = b.player_board;
    let o = b.opponent_board;
    popcount(p & 0x8100000000000081) * 100 + popcount(p & 0x4281000000008142) * (-50) + popcount(
        p & 0x2400810000810024,
    ) * 10 + popcount(p & 0x0042000000004200) * (-70) + popcount(p & 0x0024420000422400) * (-5)
        + popcount(p & 0x0018244242241800) * (-10) + popcount(p & 0x0000182424180000) * (-5)
        - popcount(o & 0x8100000000000081) * 100 - popcount(o & 0x4281000000008142) * (-50)
        - popcount(o & 0x2400810000810024) * 10 - popcount(o & 0x0042000000004200) * (-70)
        - popcount(o & 0x0024420000422400) * (-5) - popcount(o & 0x0018244242241800) * (-10)
        - popcount(o & 0x0000182424180000) * (-5)
}

/// Scores a board by a fixed table of per-square weights (a diagnostic
/// evaluator, never chosen automatically).
pub fn eval_by_pointtable(board_info: &BoardInfo) -> (r: i32)
    ensures
        r == spec_eval_pointtable(*board_info),
{
    let mut point: i32 = 0;
    point += count_bits(board_info.player_board & 0x8100000000000081) as i32 * 100;
    point += count_bits(board_info.player_board & 0x4281000000008142) as i32 * (-50);
    point += count_bits(board_info.player_board & 0x2400810000810024) as i32 * 10;
    point += count_bits(board_info.player_board & 0x0042000000004200) as i32 * (-70);
    point += count_bits(board_info.player_board & 0x0024420000422400) as i32 * (-5);
    point += count_bits(board_info.player_board & 0x0018244242241800) as i32 * (-10);
    point += count_bits(board_info.player_board & 0x0000182424180000) as i32 * (-5);

    point -= count_bits(board_info.opponent_board & 0x8100000000000081) as i32 * 100;
    point -= count_bits(board_info.opponent_board & 0x4281000000008142) as i32 * (-50);
    point -= count_bits(board_info.opponent_board & 0x2400810000810024) as i32 * 10;
    point -= count_bits(board_info.opponent_board & 0x0042000000004200) as i32 * (-70);
    point -= count_bits(board_info.opponent_board & 0x0024420000422400) as i32 * (-5);
    point -= count_bits(board_info.opponent_board & 0x0018244242241800) as i32 * (-10);
    point -= count_bits(board_info.opponent_board & 0x0000182424180000) as i32 * (-5);

    point
}

/// How many of the eight neighbours of the square `bit` are empty; board
/// edges count as zero.
pub open spec fn spec_count_openness(empty_board: u64, bit: u64) -> int {
    (if bit & 0x00000000000000ff == 0 && (bit >> 8) & empty_board != 0 {
        1int
    } else {
        0int
    }) + (if bit & 0x80808080808080ff == 0 && (bit >> 7) & empty_board != 0 {
        1int
    } else {
        0int
    }) + (if bit & 0x8080808080808080 == 0 && (bit << 1) & empty_board != 0 {
        1int
    } else {
        0int
    }) + (if bit & 0xff80808080808080 == 0 && (bit << 9) & empty_board != 0 {
        1int
    } else {
        0int
    }) + (if bit & 0xff00000000000000 == 0 && (bit << 8) & empty_board != 0 {
        1int
    } else {
        0int
    }) + (if bit & 0xff01010101010101 == 0 && (bit << 7) & empty_board != 0 {
        1int
    } else {
        0int
    }) + (if bit & 0x0101010101010101 == 0 && (bit >> 1) & empty_board != 0 {
        1int
    } else {
        0int
    }) + (if bit & 0x01010101010101ff == 0 && (bit >> 9) & empty_board != 0 {
        1int
    } else {
        0int
    })
}

/// Counts the empty squares among the eight neighbours of `bit`.
pub fn count_openness(empty_board: u64, bit: u64) -> (r: i32)
    ensures
        r == spec_count_openness(empty_board, bit),
        0 <= r <= 8,
{
    let mut count: i32 = 0;
    if bit & 0x00000000000000ff == 0 {
        if (bit >> 8) & empty_board != 0 {
            count += 1;
        }
    }
    if bit & 0x80808080808080ff == 0 {
        if (bit >> 7) & empty_board != 0 {
            count += 1;
        }
    }
    if bit & 0x8080808080808080 == 0 {
        if (bit << 1) & empty_board != 0 {
            count += 1;
        }
    }
    if bit & 0xff80808080808080 == 0 {
        if (bit << 9) & empty_board != 0 {
            count += 1;
        }
    }
    if bit & 0xff00000000000000 == 0 {
        if (bit << 8) & empty_board != 0 {
            count += 1;
        }
    }
    if bit & 0xff01010101010101 == 0 {
        if (bit << 7) & empty_board != 0 {
            count += 1;
        }
    }
    if bit & 0x0101010101010101 == 0 {
        if (bit >> 1) & empty_board != 0 {
            count += 1;
        }
    }
    if bit & 0x01010101010101ff == 0 {
        if (bit >> 9) & empty_board != 0 {
            count += 1;
        }
    }
    count
}

/// One edge's wing test: both corners empty, the four central squares
/// owned, and the five-disc run in one of its two positions.
pub open spec fn spec_edge_wing(
    bd: u64,
    empty: u64,
    corners: u64,
    block: u64,
    line: u64,
    wa: u64,
    wae: u64,
    wb: u64,
    wbe: u64,
) -> int {
    if empty & corners == corners && bd & block == block && ((bd & line == wa && empty & wae == wae)
        || (bd & line == wb && empty & wbe == wbe)) {
        1
    } else {
        0
    }
}

/// One edge's risky-C test: both corners empty and no central block formed,
/// counting the discs on the two squares beside the corners.
pub open spec fn spec_edge_c(bd: u64, empty: u64, corners: u64, block: u64, cmask: u64) -> int {
    if empty & corners == corners && !(bd & block == block) {
        popcount(bd & cmask)
    } else {
        0
    }
}

/// Wings of one side over the four edges.
pub open spec fn spec_wing_count(bd: u64, empty: u64) -> int {
    spec_edge_wing(
        bd,
        empty,
        0x8100000000000000,
        0x3c00000000000000,
        0xff00000000000000,
        0x7c00000000000000,
        0x0200000000000000,
        0x3e00000000000000,
        0x4000000000000000,
    ) + spec_edge_wing(
        bd,
        empty,
        0x8000000000000080,
        0x0000808080800000,
        0x8080808080808080,
        0x0080808080800000,
        0x0000000000008000,
        0x0000808080808000,
        0x0080000000000000,
    ) + spec_edge_wing(
        bd,
        empty,
        0x0100000000000001,
        0x0000010101010000,
        0x0101010101010101,
        0x0001010101010000,
        0x0000000000000100,
        0x0000010101010100,
        0x0001000000000000,
    ) + spec_edge_wing(
        bd,
        empty,
        0x0000000000000081,
        0x000000000000003c,
        0x00000000000000ff,
        0x000000000000007c,
        0x0000000000000002,
        0x000000000000003e,
        0x0000000000000040,
    )
}

/// Risky C squares of one side over the four edges.
pub open spec fn spec_c_count(bd: u64, empty: u64) -> int {
    spec_edge_c(bd, empty, 0x8100000000000000, 0x3c00000000000000, 0x4200000000000000)
        + spec_edge_c(bd, empty, 0x8000000000000080, 0x0000808080800000, 0x0080000000008000)
        + spec_edge_c(bd, empty, 0x0100000000000001, 0x0000010101010000, 0x0001000000000100)
        + spec_edge_c(bd, empty, 0x0000000000000081, 0x000000000000003c, 0x0000000000000042)
}

/// Wing and risky-C counts for one side: the four edges run through the
/// same predicate family against their own masks.
pub fn count_wing_and_c(bd: u64, empty: u64) -> (r: (i32, i32))
    ensures
        r.0 == spec_wing_count(bd, empty),
        0 <= r.0 <= 4,
        r.1 == spec_c_count(bd, empty),
        0 <= r.1 <= 256,
{
    let mut wing_count: i32 = 0;
    let mut c_place_count: i32 = 0;

    if empty & 0x8100000000000000 == 0x8100000000000000 {
        if bd & 0x3c00000000000000 == 0x3c00000000000000 {
            if (bd & 0xff00000000000000 == 0x7c00000000000000 && empty & 0x0200000000000000
                == 0x0200000000000000) || (bd & 0xff00000000000000 == 0x3e00000000000000 && empty
                & 0x4000000000000000 == 0x4000000000000000) {
                wing_count += 1;
            }
        } else {
            c_place_count += count_bits(bd & 0x4200000000000000) as i32;
        }
    }
    if empty & 0x8000000000000080 == 0x8000000000000080 {
        if bd & 0x0000808080800000 == 0x0000808080800000 {
            if (bd & 0x8080808080808080 == 0x0080808080800000 && empty & 0x0000000000008000
                == 0x0000000000008000) || (bd & 0x8080808080808080 == 0x0000808080808000 && empty
                & 0x0080000000000000 == 0x0080000000000000) {
                wing_count += 1;
            }
        } else {
            c_place_count += count_bits(bd & 0x0080000000008000) as i32;
        }
    }
    if empty & 0x0100000000000001 == 0x0100000000000001 {
        if bd & 0x0000010101010000 == 0x0000010101010000 {
            if (bd & 0x0101010101010101 == 0x0001010101010000 && empty & 0x0000000000000100
                == 0x0000000000000100) || (bd & 0x0101010101010101 == 0x0000010101010100 && empty
                & 0x0001000000000000 == 0x0001000000000000) {
                wing_count += 1;
            }
        } else {
            c_place_count += count_bits(bd & 0x0001000000000100) as i32;
        }
    }
    if empty & 0x0000000000000081 == 0x0000000000000081 {
        if bd & 0x000000000000003c == 0x000000000000003c {
            if (bd & 0x00000000000000ff == 0x000000000000007c && empty & 0x0000000000000002
                == 0x0000000000000002) || (bd & 0x00000000000000ff == 0x000000000000003e && empty
                & 0x0000000000000040 == 0x0000000000000040) {
                wing_count += 1;
            }
        } else {
            c_place_count += count_bits(bd & 0x0000000000000042) as i32;
        }
    }
    (wing_count, c_place_count)
}

/// Shifts `x` by `n`, to the right or to the left.
pub open spec fn spec_sh(x: u64, n: u64, shr: bool) -> u64 {
    if shr {
        x >> n
    } else {
        x << n
    }
}

/// How many consecutive squares from step `i` outward along a corner ray
/// still carry a disc of `bd`; the walk stops at the first miss or after
/// seven steps.
pub open spec fn spec_ray_from(bd: u64, corner: u64, s: u64, shr: bool, i: int) -> int
    decreases 8 - i,
{
    if i < 1 || i >= 8 {
        0
    } else if bd & spec_sh(corner, (s * i) as u64, shr) == spec_sh(corner, (s * i) as u64, shr) {
        1 + spec_ray_from(bd, corner, s, shr, i + 1)
    } else {
        0
    }
}

/// One corner's contribution to the stable-disc count: the corner itself
/// plus its run along the column (a full run of 8 counts as 4) plus its run
/// along the row (a full run of 7 counts as 3).
pub open spec fn spec_corner_stable(bd: u64, corner: u64, down_shr: bool, side_shr: bool) -> int {
    if bd & corner == corner {
        let t = 1 + spec_ray_from(bd, corner, 8, down_shr, 1);
        let td = if t == 8 {
            4int
        } else {
            t
        };
        let t2 = spec_ray_from(bd, corner, 1, side_shr, 1);
        let ts = if t2 == 7 {
            3int
        } else {
            t2
        };
        td + ts
    } else {
        0
    }
}

/// Stable discs of one side: discs anchored at a played corner and
/// extending along its two adjacent edges.
pub open spec fn spec_stable_count(bd: u64) -> int {
    spec_corner_stable(bd, 0x8000000000000000, true, true) + spec_corner_stable(
        bd,
        0x0100000000000000,
        true,
        false,
    ) + spec_corner_stable(bd, 0x0000000000000001, false, false) + spec_corner_stable(
        bd,
        0x0000000000000080,
        false,
        true,
    )
}

/// Walks outward from a corner in steps of `s` squares and counts how many
/// consecutive squares carry a disc of `bd`.
fn ray_len(bd: u64, corner: u64, s: u64, shr: bool) -> (r: i32)
    requires
        s == 1 || s == 8,
    ensures
        r == spec_ray_from(bd, corner, s, shr, 1),
        0 <= r <= 7,
{
    let mut r: i32 = 0;
    let mut i: u64 = 1;
    let mut broke: bool = false;
    while i < 8 && !broke
        invariant
            1 <= i <= 8,
            s == 1 || s == 8,
            !broke ==> r == i - 1 && spec_ray_from(bd, corner, s, shr, 1) == r + spec_ray_from(
                bd,
                corner,
                s,
                shr,
                i as int,
            ),
            broke ==> r == spec_ray_from(bd, corner, s, shr, 1),
            0 <= r <= 7,
        decreases 8 - i, (if broke { 0int } else { 1int }),
    {
        let q: u64 = if shr {
            corner >> (s * i)
        } else {
            corner << (s * i)
        };
        if bd & q == q {
            r += 1;
            i += 1;
        } else {
            broke = true;
        }
    }
    r
}

/// Stable discs of one side: each played corner contributes its two
/// corner-anchored edge runs, capped so that a full edge is not counted
/// twice.
#[verifier::rlimit(50)]
pub fn count_stable(bd: u64) -> (r: i32)
    ensures
        r == spec_stable_count(bd),
        0 <= r <= 52,
{
    let mut stable: i32 = 0;
    if bd & 0x8000000000000000 == 0x8000000000000000 {
        let mut t: i32 = 1 + ray_len(bd, 0x8000000000000000, 8, true);
        if t == 8 {
            t = 4;
        }
        stable += t;
        let mut t2: i32 = ray_len(bd, 0x8000000000000000, 1, true);
        if t2 == 7 {
            t2 = 3;
        }
        stable += t2;
    }
    if bd & 0x0100000000000000 == 0x0100000000000000 {
        let mut t: i32 = 1 + ray_len(bd, 0x0100000000000000, 8, true);
        if t == 8 {
            t = 4;
        }
        stable += t;
        let mut t2: i32 = ray_len(bd, 0x0100000000000000, 1, false);
        if t2 == 7 {
            t2 = 3;
        }
        stable += t2;
    }
    if bd & 0x0000000000000001 == 0x0000000000000001 {
        let mut t: i32 = 1 + ray_len(bd, 0x0000000000000001, 8, false);
        if t == 8 {
            t = 4;
        }
        stable += t;
        let mut t2: i32 = ray_len(bd, 0x0000000000000001, 1, false);
        if t2 == 7 {
            t2 = 3;
        }
        stable += t2;
    }
    if bd & 0x0000000000000080 == 0x0000000000000080 {
        let mut t: i32 = 1 + ray_len(bd, 0x0000000000000080, 8, false);
        if t == 8 {
            t = 4;
        }
        stable += t;
        let mut t2: i32 = ray_len(bd, 0x0000000000000080, 1, true);
        if t2 == 7 {
            t2 = 3;
        }
        stable += t2;
    }
    stable
}

/// Discs on the diagonal neighbours of still-empty corners.
pub open spec fn spec_x_count(bd: u64, empty: u64) -> int {
    (if bd & 0x0040000000000000 == 0x0040000000000000 && empty & 0x8000000000000000
        == 0x8000000000000000 {
        1int
    } else {
        0int
    }) + (if bd & 0x0002000000000000 == 0x0002000000000000 && empty & 0x0100000000000000
        == 0x0100000000000000 {
        1int
    } else {
        0int
    }) + (if bd & 0x0000000000000200 == 0x0000000000000200 && empty & 0x0000000000000001
        == 0x0000000000000001 {
        1int
    } else {
        0int
    }) + (if bd & 0x0000000000004000 == 0x0000000000004000 && empty & 0x0000000000000080
        == 0x0000000000000080 {
        1int
    } else {
        0int
    })
}

/// Counts one side's discs that sit diagonally beside a still-empty corner.
pub fn count_x(bd: u64, empty: u64) -> (r: i32)
    ensures
        r == spec_x_count(bd, empty),
        0 <= r <= 4,
{
    let mut x: i32 = 0;
    if bd & 0x0040000000000000 == 0x0040000000000000 && empty & 0x8000000000000000
        == 0x8000000000000000 {
        x += 1;
    }
    if bd & 0x0002000000000000 == 0x0002000000000000 && empty & 0x0100000000000000
        == 0x0100000000000000 {
        x += 1;
    }
    if bd & 0x0000000000000200 == 0x0000000000000200 && empty & 0x0000000000000001
        == 0x0000000000000001 {
        x += 1;
    }
    if bd & 0x0000000000004000 == 0x0000000000004000 && empty & 0x0000000000000080
        == 0x0000000000000080 {
        x += 1;
    }
    x
}

/// Total openness of one side's discs, from square `i` on in display order.
pub open spec fn spec_openness_from(bd: u64, empty: u64, i: int) -> int
    decreases 64 - i,
{
    if i < 0 || i >= 64 {
        0
    } else {
        (if bd & (0x8000000000000000u64 >> (i as u64)) != 0 {
            spec_count_openness(empty, 0x8000000000000000u64 >> (i as u64))
        } else {
            0int
        }) + spec_openness_from(bd, empty, i + 1)
    }
}

/// Total openness of one side's discs: the sum over its discs of the empty
/// squares beside each.
pub open spec fn spec_openness(bd: u64, empty: u64) -> int {
    spec_openness_from(bd, empty, 0)
}

/// The mid-game heuristic: a weighted sum of six features, each computed
/// for the side to move minus the opponent.  A side without discs loses
/// outright, an opponent without discs wins outright.
pub open spec fn spec_eval_normal(b: BoardInfo) -> int {
    let p = b.player_board;
    let o = b.opponent_board;
    let empty = !(p | o);
    if popcount(p) == 0 {
        i32::MIN as int
    } else if popcount(o) == 0 {
        i32::MAX as int
    } else {
        (spec_stable_count(p) - spec_stable_count(o)) * WEIGHT_STABLE + (spec_wing_count(p, empty)
            - spec_wing_count(o, empty)) * WEIGHT_WING + (spec_x_count(p, empty) - spec_x_count(
            o,
            empty,
        )) * WEIGHT_XMOVE + (spec_c_count(p, empty) - spec_c_count(o, empty)) * WEIGHT_CMOVE + (
        popcount(spec_legal_board(p, o)) - popcount(spec_legal_board(o, p))) * WEIGHT_MOBILITY + (
        spec_openness(p, empty) - spec_openness(o, empty)) * WEIGHT_OPENNESS
    }
}

/// Scores a board by the mid-game heuristic.
pub fn eval_normal(board_info: &BoardInfo) -> (r: i32)
    requires
        board_wf(*board_info),
    ensures
        r == spec_eval_normal(*board_info),
{
    let p = board_info.player_board;
    let o = board_info.opponent_board;
    if count_bits(p) == 0 {
        proof {
            crate::board::lemma_popcount_bound(p);
        }
        return i32::MIN;
    }
    if count_bits(o) == 0 {
        proof {
            crate::board::lemma_popcount_bound(o);
        }
        return i32::MAX;
    }

    let empty_board = !(p | o);

    let (player_wing_count, player_c_place_count) = count_wing_and_c(p, empty_board);
    let (opponent_wing_count, opponent_c_place_count) = count_wing_and_c(o, empty_board);

    let player_stable_count = count_stable(p);
    let opponent_stable_count = count_stable(o);

    let player_x_place_count = count_x(p, empty_board);
    let opponent_x_place_count = count_x(o, empty_board);

    let player_legal_board_count = count_bits(make_legal_board(board_info)) as i32;
    let mut tmp_board_info = board_info.clone();
    crate::board::swap(&mut tmp_board_info);
    let opponent_legal_board_count = count_bits(make_legal_board(&tmp_board_info)) as i32;

    let mut player_openness: i32 = 0;
    let mut opponent_openness: i32 = 0;
    let mut mask: u64 = 0x8000000000000000;
    let mut i: u64 = 0;
    proof {
        assert(0x8000000000000000u64 >> 0u64 == 0x8000000000000000u64) by (bit_vector);
    }
    while i < 64
        invariant
            0 <= i <= 64,
            p == board_info.player_board,
            o == board_info.opponent_board,
            empty_board == !(p | o),
            p & o == 0,
            i < 64 ==> mask == 0x8000000000000000u64 >> i,
            spec_openness(p, empty_board) == player_openness + spec_openness_from(
                p,
                empty_board,
                i as int,
            ),
            spec_openness(o, empty_board) == opponent_openness + spec_openness_from(
                o,
                empty_board,
                i as int,
            ),
            0 <= player_openness <= 8 * i,
            0 <= opponent_openness <= 8 * i,
        decreases 64 - i,
    {
        proof {
            assert(p & o == 0 && p & (0x8000000000000000u64 >> i) != 0 ==> o & (
            0x8000000000000000u64 >> i) == 0) by (bit_vector)
                requires i < 64u64;
        }
        if p & mask != 0 {
            player_openness += count_openness(empty_board, mask);
        } else if o & mask != 0 {
            opponent_openness += count_openness(empty_board, mask);
        }
        proof {
            assert((0x8000000000000000u64 >> i) >> 1u64 == 0x8000000000000000u64 >> ((i + 1) as u64))
                by (bit_vector)
                requires i < 64u64;
        }
        mask = mask >> 1;
        i += 1;
    }

    (player_stable_count - opponent_stable_count) * WEIGHT_STABLE + (player_wing_count
        - opponent_wing_count) * WEIGHT_WING + (player_x_place_count - opponent_x_place_count)
        * WEIGHT_XMOVE + (player_c_place_count - opponent_c_place_count) * WEIGHT_CMOVE + (
    player_legal_board_count - opponent_legal_board_count) * WEIGHT_MOBILITY + (player_openness
        - opponent_openness) * WEIGHT_OPENNESS
}

/// The chosen evaluator applied to the board.
pub open spec fn spec_evaluate(n: i8, b: BoardInfo) -> int {
    if n == EVAL_BY_POINTTABLE {
        spec_eval_pointtable(b)
    } else if n == EVAL_NORMAL {
        spec_eval_normal(b)
    } else if n == EVAL_PERFECT {
        spec_eval_perfect(b)
    } else if n == EVAL_WIN {
        spec_eval_win(b)
    } else {
        0
    }
}

/// Dispatches to the evaluator named by `n`.
pub fn evaluate(n: i8, board_info: &BoardInfo) -> (r: i32)
    requires
        n == EVAL_BY_POINTTABLE || n == EVAL_NORMAL || n == EVAL_PERFECT || n == EVAL_WIN,
        board_wf(*board_info),
    ensures
        r == spec_evaluate(n, *board_info),
{
    if n == EVAL_BY_POINTTABLE {
        eval_by_pointtable(board_info)
    } else if n == EVAL_NORMAL {
        eval_normal(board_info)
    } else if n == EVAL_PERFECT {
        eval_perfect(board_info)
    } else {
        eval_win(board_info)
    }
}

} // verus!
