//! Bitboard state for an 8x8 Reversi game.
//!
//! Squares are numbered by a 64-bit mask in which bit 63 (0x8000000000000000)
//! is A1, the top-left square of the display, and bit 0 is H8.  A
//! "single-square mask" is a value with exactly one bit set; the zero mask
//! stands for a pass.

use vstd::prelude::*;

verus! {

pub const BLACK: i8 = 1;
pub const WHITE: i8 = -1;
pub const NONE: i8 = 0;
pub const TURN_CHANGE_FACTOR: i8 = -1;
pub const MAX_TURNS: i8 = 60;

/// The single in-memory entity the engine manipulates: the discs of the side
/// to move, the discs of the other side, a display tag for the side to move,
/// and the count of moves made so far (the initial position is move 1).
pub struct BoardInfo {
    pub now_turn: i8,
    pub now_index: i8,
    pub player_board: u64,
    pub opponent_board: u64,
}

impl Clone for BoardInfo {
    fn clone(&self) -> (r: Self)
        ensures
            r == *self,
    {
        BoardInfo {
            now_turn: self.now_turn,
            now_index: self.now_index,
            player_board: self.player_board,
            opponent_board: self.opponent_board,
        }
    }
}

/// A mask with exactly one bit set: a single square.
pub open spec fn single_bit(m: u64) -> bool {
    m != 0 && m & ((m - 1) as u64) == 0
}

/// A single square meets any mask wholly or not at all.
pub proof fn lemma_single_bit_meets(m: u64, x: u64)
    requires
        single_bit(m),
    ensures
        (m & x != 0) == (m & x == m),
{
    assert((m & x != 0) == (m & x == m)) by (bit_vector)
        requires
            m != 0 && m & ((m - 1) as u64) == 0,
    ;
}

/// The mask of square `i` in the scan order of the searches: a single bit
/// that the next step shifts one square further.
pub proof fn lemma_shl_step(i: u64)
    requires
        i < 64,
    ensures
        single_bit(1u64 << i),
        i < 63 ==> (1u64 << i) << 1u64 == 1u64 << ((i + 1) as u64),
        1u64 << 0u64 == 1u64,
{
    assert((1u64 << i) != 0 && (1u64 << i) & ((((1u64 << i) - 1)) as u64) == 0 && (i < 63 ==> (1u64
        << i) << 1u64 == 1u64 << ((i + 1) as u64)) && 1u64 << 0u64 == 1u64) by (bit_vector)
        requires
            i < 64,
    ;
}

/// The empty mask and the or with nothing.
pub proof fn lemma_or_identities(x: u64, o: u64)
    ensures
        0u64 | x == x,
        x | 0u64 == x,
        x & x == x,
        0u64 & !o == 0,
        x != 0 ==> x | o != 0,
{
    assert(0u64 | x == x && x | 0u64 == x && x & x == x && 0u64 & !o == 0 && (x != 0 ==> x | o
        != 0)) by (bit_vector);
}

/// Well-formedness of a board: no square is occupied by both sides, and the
/// side tag is one of the two colors.
pub open spec fn board_wf(b: BoardInfo) -> bool {
    &&& b.player_board & b.opponent_board == 0
    &&& (b.now_turn == BLACK || b.now_turn == WHITE)
}

/// The standard starting position, BLACK to move.
pub open spec fn spec_initial_board() -> BoardInfo {
    BoardInfo {
        now_turn: BLACK,
        now_index: 1,
        player_board: 0x0000000810000000u64,
        opponent_board: 0x0000001008000000u64,
    }
}

pub fn initial_board() -> (r: BoardInfo)
    ensures
        r == spec_initial_board(),
        board_wf(r),
{
    let r = BoardInfo {
        now_turn: BLACK,
        now_index: 1,
        player_board: 0x0000000810000000,
        opponent_board: 0x0000001008000000,
    };
    proof {
        assert(0x0000000810000000u64 & 0x0000001008000000u64 == 0) by (bit_vector);
    }
    r
}

/// The board seen from the other side: the two disc masks exchanged and the
/// side tag flipped.
pub open spec fn spec_swap(b: BoardInfo) -> BoardInfo {
    BoardInfo {
        now_turn: (b.now_turn * TURN_CHANGE_FACTOR) as i8,
        now_index: b.now_index,
        player_board: b.opponent_board,
        opponent_board: b.player_board,
    }
}

/// Swapping sides keeps a board well formed.
pub proof fn lemma_swap_wf(b: BoardInfo)
    requires
        board_wf(b),
    ensures
        board_wf(spec_swap(b)),
{
    let p = b.player_board;
    let o = b.opponent_board;
    assert(o & p == 0) by (bit_vector)
        requires
            p & o == 0,
    ;
}

/// Exchanges the roles of the two sides in place.
pub fn swap(board_info: &mut BoardInfo)
    requires
        old(board_info).now_turn != i8::MIN,
    ensures
        *final(board_info) == spec_swap(*old(board_info)),
{
    let tmp: u64 = board_info.player_board;
    board_info.player_board = board_info.opponent_board;
    board_info.opponent_board = tmp;
    board_info.now_turn *= TURN_CHANGE_FACTOR;
}

/// Number of set bits among the `k` lowest bits of `x`.
pub open spec fn pop_upto(x: u64, k: int) -> int
    decreases k,
{
    if k <= 0 {
        0
    } else {
        pop_upto(x, k - 1) + (if x & (1u64 << ((k - 1) as u64)) != 0 {
            1int
        } else {
            0int
        })
    }
}

/// Number of set bits of `x`.
pub open spec fn popcount(x: u64) -> int {
    pop_upto(x, 64)
}

pub proof fn lemma_pop_upto_bound(x: u64, k: int)
    ensures
        0 <= pop_upto(x, k) <= (if k <= 0 { 0int } else { k }),
    decreases k,
{
    if k > 0 {
        lemma_pop_upto_bound(x, k - 1);
    }
}

pub proof fn lemma_popcount_bound(x: u64)
    ensures
        0 <= popcount(x) <= 64,
{
    lemma_pop_upto_bound(x, 64);
}

/// Counts the set bits of `x`.
pub fn count_bits(x: u64) -> (r: u32)
    ensures
        r == popcount(x),
        r <= 64,
{
    let mut r: u32 = 0;
    let mut i: u64 = 0;
    while i < 64
        invariant
            0 <= i <= 64,
            r == pop_upto(x, i as int),
            r <= i,
        decreases 64 - i,
    {
        if x & (1u64 << i) != 0 {
            r += 1;
        }
        i += 1;
    }
    r
}

/// Results of a finished (or running) game: the number of black discs, the
/// number of white discs, and which color holds the majority.
pub fn get_result(board_info: &BoardInfo) -> (r: (u32, u32, i8))
    ensures
        r.0 == (if board_info.now_turn == WHITE {
            popcount(board_info.opponent_board)
        } else {
            popcount(board_info.player_board)
        }),
        r.1 == (if board_info.now_turn == WHITE {
            popcount(board_info.player_board)
        } else {
            popcount(board_info.opponent_board)
        }),
        r.2 == (if r.0 > r.1 {
            BLACK
        } else if r.0 == r.1 {
            NONE
        } else {
            WHITE
        }),
{
    let mut black_count: u32 = count_bits(board_info.player_board);
    let mut white_count: u32 = count_bits(board_info.opponent_board);
    if board_info.now_turn == WHITE {
        let tmp = black_count;
        black_count = white_count;
        white_count = tmp;
    }
    let mut superior: i8 = BLACK;
    if black_count <= white_count {
        if black_count == white_count {
            superior = NONE;
        } else {
            superior = WHITE;
        }
    }
    (black_count, white_count, superior)
}

/// How far right of column A a column letter lies.
pub open spec fn spec_col_shift(c: char) -> int {
    if c == 'B' {
        1
    } else if c == 'C' {
        2
    } else if c == 'D' {
        3
    } else if c == 'E' {
        4
    } else if c == 'F' {
        5
    } else if c == 'G' {
        6
    } else if c == 'H' {
        7
    } else {
        0
    }
}

/// The single-square mask named by a column letter and a row digit: A1 is
/// bit 63, and the letter and digit shift it right along the row and down
/// the column.
pub open spec fn spec_point_to_bit(inp1: char, inp2: char) -> u64 {
    (0x8000000000000000u64 >> (spec_col_shift(inp1) as u64)) >> ((((inp2 as int) - 49) * 8) as u64)
}

/// Turns square notation (a letter A-H and a digit 1-8) into the
/// corresponding single-square mask.
pub fn point_to_bit(inp1: char, inp2: char) -> (r: u64)
    requires
        '1' <= inp2 <= '8',
    ensures
        r == spec_point_to_bit(inp1, inp2),
{
    let mut ret: u64 = 0x8000000000000000;
    match inp1 {
        'A' => (),
        'B' => ret = ret >> 1,
        'C' => ret = ret >> 2,
        'D' => ret = ret >> 3,
        'E' => ret = ret >> 4,
        'F' => ret = ret >> 5,
        'G' => ret = ret >> 6,
        'H' => ret = ret >> 7,
        _ => (),
    }
    proof {
        assert(forall|x: u64| #[trigger] (x >> 0u64) == x) by (bit_vector);
        assert(ret == 0x8000000000000000u64 >> (spec_col_shift(inp1) as u64));
    }
    let tmp: i32 = (inp2 as i32) - 48;
    ret = ret >> (((tmp - 1) * 8) as u32);
    ret
}

/// The column letter of column number `j` (0 is column A).
pub open spec fn spec_col_char(j: int) -> char {
    if j == 0 {
        'A'
    } else if j == 1 {
        'B'
    } else if j == 2 {
        'C'
    } else if j == 3 {
        'D'
    } else if j == 4 {
        'E'
    } else if j == 5 {
        'F'
    } else if j == 6 {
        'G'
    } else {
        'H'
    }
}

/// The digit character of row number `r` (1 is the top row).
pub open spec fn spec_row_char(r: int) -> char {
    if r == 1 {
        '1'
    } else if r == 2 {
        '2'
    } else if r == 3 {
        '3'
    } else if r == 4 {
        '4'
    } else if r == 5 {
        '5'
    } else if r == 6 {
        '6'
    } else if r == 7 {
        '7'
    } else {
        '8'
    }
}

/// Turns a single-square mask back into its square notation.  The shift
/// distance from the A1 bit determines the column and the row.
pub fn bit_to_point(num: u64) -> (r: (char, char))
    requires
        exists|c: u64| c < 64 && (num << c) == 0x8000000000000000u64,
    ensures
        forall|c: u64|
            c < 64 && (num << c) == 0x8000000000000000u64 ==> r.0 == spec_col_char((c as int) % 8)
                && r.1 == spec_row_char((c as int) / 8 + 1),
{
    let ghost w: u64 = choose|c: u64| c < 64 && (num << c) == 0x8000000000000000u64;
    proof {
        assert(forall|x: u64| #[trigger] (x << 0u64) == x) by (bit_vector);
    }
    let mut count: u32 = 0;
    let mut num_cpy = num;
    while num_cpy != 0x8000000000000000
        invariant
            count <= w < 64,
            num_cpy == num << (count as u64),
            (num << w) == 0x8000000000000000u64,
        decreases w - count,
    {
        proof {
            assert(num << (count as u64) != 0x8000000000000000u64 ==> count != w);
        }
        count = count + 1;
        num_cpy = num_cpy << 1;
        proof {
            let c64 = (count - 1) as u64;
            assert((num << c64) << 1u64 == num << ((c64 + 1) as u64)) by (bit_vector)
                requires c64 < 64u64;
        }
    }
    proof {
        assert(forall|a: u64, b: u64|
            a < 64 && b < 64 && (num << a) == 0x8000000000000000u64 && (num << b)
                == 0x8000000000000000u64 ==> a == b) by (bit_vector);
    }
    let c1: char = match count % 8 {
        0 => 'A',
        1 => 'B',
        2 => 'C',
        3 => 'D',
        4 => 'E',
        5 => 'F',
        6 => 'G',
        _ => 'H',
    };
    let c2: char = match count / 8 + 1 {
        1 => '1',
        2 => '2',
        3 => '3',
        4 => '4',
        5 => '5',
        6 => '6',
        7 => '7',
        _ => '8',
    };
    (c1, c2)
}

} // verus!
