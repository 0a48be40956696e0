use reversi::board::{
    bit_to_point, count_bits, get_result, initial_board, point_to_bit, swap, BoardInfo, BLACK,
    NONE, WHITE,
};
use reversi::eval::{
    count_openness, count_stable, count_x, eval_by_pointtable, eval_normal, eval_perfect,
    eval_win, evaluate, max, EVAL_NORMAL, EVAL_PERFECT, EVAL_WIN,
};
use reversi::moves::{make_legal_board, transfer};
use reversi::place::{is_game_over, place, CONTINUE, GAME_SET, PLACE_ERR};
use reversi::protocol::read_start;
use reversi::search::{choose_evaluator, choose_root_move, negamax, search_root_move, should_fallback};

const D3: u64 = 0x0000100000000000;
const C4: u64 = 0x0000002000000000;
const F5: u64 = 0x0000000004000000;
const E6: u64 = 0x0000000000080000;

#[test]
fn initial_position_black_legal_moves() {
    let board = initial_board();
    let legal = make_legal_board(&board);
    assert_eq!(legal, D3 | C4 | F5 | E6);
    assert_eq!(legal.count_ones(), 4);
}

#[test]
fn point_to_bit_maps_squares() {
    assert_eq!(point_to_bit('A', '1'), 0x8000000000000000);
    assert_eq!(point_to_bit('D', '3'), D3);
    assert_eq!(point_to_bit('C', '4'), C4);
    assert_eq!(point_to_bit('F', '5'), F5);
    assert_eq!(point_to_bit('E', '6'), E6);
    assert_eq!(point_to_bit('H', '8'), 0x0000000000000001);
}

#[test]
fn bit_to_point_round_trip() {
    assert_eq!(bit_to_point(0x8000000000000000), ('A', '1'));
    assert_eq!(bit_to_point(D3), ('D', '3'));
    assert_eq!(bit_to_point(0x0000000000000001), ('H', '8'));
    assert_eq!(bit_to_point(0x1000000000000000), ('D', '1'));
}

#[test]
fn open_with_d3_flips_d4() {
    let mut board = initial_board();
    let status = place(D3, &mut board);
    assert_eq!(status, CONTINUE);
    // BLACK now holds D3, D4, D5, E4; WHITE keeps only E5.
    assert_eq!(board.player_board, 0x0000101810000000);
    assert_eq!(board.opponent_board, 0x0000000008000000);
    assert_eq!(board.now_index, 2);
    assert_eq!(board.now_turn, BLACK);
}

#[test]
fn forced_pass_continues() {
    // The side to move holds only B1, hemmed against the corner: no move.
    // The opponent holds A1 and may play C1.
    let mut board = BoardInfo {
        now_turn: BLACK,
        now_index: 10,
        player_board: 0x4000000000000000,
        opponent_board: 0x8000000000000000,
    };
    assert_eq!(make_legal_board(&board), 0);
    assert!(!is_game_over(&board));
    assert_eq!(place(0, &mut board), CONTINUE);
    assert_eq!(board.player_board, 0x4000000000000000);
    assert_eq!(board.opponent_board, 0x8000000000000000);
    assert_eq!(place(0x0000000000000001, &mut board), PLACE_ERR);
}

#[test]
fn pass_with_moves_available_is_an_error() {
    let mut board = initial_board();
    assert_eq!(place(0, &mut board), PLACE_ERR);
    assert_eq!(board.player_board, 0x0000000810000000);
}

#[test]
fn illegal_square_is_an_error() {
    let mut board = initial_board();
    assert_eq!(place(0x8000000000000000, &mut board), PLACE_ERR);
    assert_eq!(board.player_board, 0x0000000810000000);
    assert_eq!(board.now_index, 1);
}

#[test]
fn double_pass_ends_the_game() {
    // A board fully covered by one color leaves neither side a move.
    let mut board = BoardInfo {
        now_turn: BLACK,
        now_index: 30,
        player_board: !0u64,
        opponent_board: 0,
    };
    assert!(is_game_over(&board));
    assert_eq!(place(0, &mut board), GAME_SET);
}

#[test]
fn sixtieth_move_ends_the_game() {
    // A1 brackets B1, so C1 is legal; it is the sixtieth move.
    let mut board = BoardInfo {
        now_turn: BLACK,
        now_index: 60,
        player_board: 0x8000000000000000,
        opponent_board: 0x4000000000000000,
    };
    assert_eq!(place(0x2000000000000000, &mut board), GAME_SET);
    assert_eq!(board.now_index, 61);
    assert_eq!(board.player_board, 0xe000000000000000);
    assert_eq!(board.opponent_board, 0);
}

#[test]
fn transfer_moves_and_clips() {
    let e4 = point_to_bit('E', '4');
    assert_eq!(transfer(&e4, &0), point_to_bit('E', '3'));
    assert_eq!(transfer(&e4, &1), point_to_bit('F', '3'));
    assert_eq!(transfer(&e4, &2), point_to_bit('F', '4'));
    assert_eq!(transfer(&e4, &3), point_to_bit('F', '5'));
    assert_eq!(transfer(&e4, &4), point_to_bit('E', '5'));
    assert_eq!(transfer(&e4, &5), point_to_bit('D', '5'));
    assert_eq!(transfer(&e4, &6), point_to_bit('D', '4'));
    assert_eq!(transfer(&e4, &7), point_to_bit('D', '3'));
    // Off the board in every direction from the two extreme corners.
    assert_eq!(transfer(&0x8000000000000000, &0), 0);
    assert_eq!(transfer(&0x8000000000000000, &6), 0);
    assert_eq!(transfer(&0x8000000000000000, &7), 0);
    assert_eq!(transfer(&0x0000000000000001, &3), 0);
    assert_eq!(transfer(&0x0000000000000001, &4), 0);
}

#[test]
fn swap_exchanges_sides() {
    let mut board = initial_board();
    swap(&mut board);
    assert_eq!(board.now_turn, WHITE);
    assert_eq!(board.player_board, 0x0000001008000000);
    assert_eq!(board.opponent_board, 0x0000000810000000);
    swap(&mut board);
    assert_eq!(board.now_turn, BLACK);
    assert_eq!(board.player_board, 0x0000000810000000);
}

#[test]
fn count_bits_counts() {
    assert_eq!(count_bits(0), 0);
    assert_eq!(count_bits(!0u64), 64);
    assert_eq!(count_bits(0x8000000000000001), 2);
}

#[test]
fn get_result_reports_counts_and_majority() {
    let board = BoardInfo {
        now_turn: BLACK,
        now_index: 5,
        player_board: 0x0000000000000007,
        opponent_board: 0x0000000000000018,
    };
    assert_eq!(get_result(&board), (3, 2, BLACK));
    let board_w = BoardInfo {
        now_turn: WHITE,
        now_index: 5,
        player_board: 0x0000000000000007,
        opponent_board: 0x0000000000000018,
    };
    // From WHITE's turn the player mask holds the white discs.
    assert_eq!(get_result(&board_w), (2, 3, WHITE));
    let board_d = BoardInfo {
        now_turn: BLACK,
        now_index: 5,
        player_board: 0x0000000000000003,
        opponent_board: 0x000000000000000c,
    };
    assert_eq!(get_result(&board_d), (2, 2, NONE));
}

#[test]
fn eval_perfect_initial_is_zero() {
    let board = initial_board();
    assert_eq!(eval_perfect(&board), 0);
    assert_eq!(eval_win(&board), 0);
}

#[test]
fn eval_win_is_sign_of_eval_perfect() {
    let ahead = BoardInfo {
        now_turn: BLACK,
        now_index: 9,
        player_board: 0x0000000000000007,
        opponent_board: 0x0000000000000008,
    };
    assert_eq!(eval_perfect(&ahead), 2);
    assert_eq!(eval_win(&ahead), 1);
    let behind = BoardInfo {
        now_turn: BLACK,
        now_index: 9,
        player_board: 0x0000000000000008,
        opponent_board: 0x0000000000000007,
    };
    assert_eq!(eval_perfect(&behind), -2);
    assert_eq!(eval_win(&behind), -1);
}

#[test]
fn eval_by_pointtable_weighs_corners() {
    let board = BoardInfo {
        now_turn: BLACK,
        now_index: 9,
        player_board: 0x8000000000000000,
        opponent_board: 0,
    };
    assert_eq!(eval_by_pointtable(&board), 100);
    let board_b2 = BoardInfo {
        now_turn: BLACK,
        now_index: 9,
        player_board: 0,
        opponent_board: 0x0040000000000000,
    };
    // B2 weighs -70, held by the opponent.
    assert_eq!(eval_by_pointtable(&board_b2), 70);
}

#[test]
fn corner_stability_counts() {
    assert_eq!(count_stable(0x8000000000000000), 1);
    assert_eq!(count_stable(0xff00000000000000), 8);
    // A full board: every corner counts 4 + 3.
    assert_eq!(count_stable(!0u64), 28);
    // No corner, no stability.
    assert_eq!(count_stable(0x7e00000000000000), 0);
}

#[test]
fn x_square_next_to_empty_corner() {
    // B2 beside an empty A1 corner is risky.
    let empty = !0x0040000000000000u64;
    assert_eq!(count_x(0x0040000000000000, empty), 1);
    // With the corner taken the square stops counting.
    let empty_taken = !(0x0040000000000000u64 | 0x8000000000000000u64);
    assert_eq!(count_x(0x0040000000000000, empty_taken), 0);
}

#[test]
fn openness_counts_empty_neighbours() {
    // A lone disc on E4 has eight empty neighbours.
    let e4 = point_to_bit('E', '4');
    assert_eq!(count_openness(!e4, e4), 8);
    // A corner has three.
    let a1 = 0x8000000000000000u64;
    assert_eq!(count_openness(!a1, a1), 3);
    // A neighbour that is occupied does not count.
    let d4 = point_to_bit('D', '4');
    assert_eq!(count_openness(!(e4 | d4), e4), 7);
}

#[test]
fn eval_normal_balanced_board_is_zero() {
    let board = BoardInfo {
        now_turn: BLACK,
        now_index: 9,
        player_board: 0x8000000000000000,
        opponent_board: 0x0000000000000001,
    };
    assert_eq!(eval_normal(&board), 0);
}

#[test]
fn eval_normal_weighs_stability_and_openness() {
    // A1 and B1 against a lone H8: one extra stable disc, three extra
    // open neighbours.
    let board = BoardInfo {
        now_turn: BLACK,
        now_index: 9,
        player_board: 0xc000000000000000,
        opponent_board: 0x0000000000000001,
    };
    assert_eq!(eval_normal(&board), 101 - 3 * 13);
}

#[test]
fn eval_normal_wipeouts_saturate() {
    let board = BoardInfo {
        now_turn: BLACK,
        now_index: 9,
        player_board: 0,
        opponent_board: 0x0000000000000001,
    };
    assert_eq!(eval_normal(&board), i32::MIN);
    let board_win = BoardInfo {
        now_turn: BLACK,
        now_index: 9,
        player_board: 0x0000000000000001,
        opponent_board: 0,
    };
    assert_eq!(eval_normal(&board_win), i32::MAX);
}

#[test]
fn evaluate_dispatches() {
    let board = initial_board();
    assert_eq!(evaluate(EVAL_PERFECT, &board), eval_perfect(&board));
    assert_eq!(evaluate(EVAL_WIN, &board), eval_win(&board));
    assert_eq!(evaluate(EVAL_NORMAL, &board), eval_normal(&board));
    assert_eq!(
        evaluate(reversi::eval::EVAL_BY_POINTTABLE, &board),
        eval_by_pointtable(&board)
    );
}

#[test]
fn max_picks_the_larger() {
    assert_eq!(max(3, 5), 5);
    assert_eq!(max(5, 3), 5);
    assert_eq!(max(-7, -7), -7);
}

#[test]
fn negamax_depth_one_on_initial_position() {
    // Every opening move flips exactly one disc: four own discs against
    // one of the opponent.
    let mut board = initial_board();
    let score = negamax(i32::MIN + 1, i32::MAX - 1, 1, &mut board, EVAL_PERFECT);
    assert_eq!(score, 3);
    assert_eq!(board.player_board, 0x0000000810000000);
    assert_eq!(board.now_index, 1);
}

#[test]
fn negamax_on_finished_game_is_the_evaluator() {
    let mut board = BoardInfo {
        now_turn: BLACK,
        now_index: 30,
        player_board: !0u64,
        opponent_board: 0,
    };
    assert_eq!(negamax(i32::MIN + 1, i32::MAX - 1, 5, &mut board, EVAL_PERFECT), 64);
    assert_eq!(negamax(i32::MIN + 1, i32::MAX - 1, 5, &mut board, EVAL_WIN), 1);
}

#[test]
fn negamax_passes_when_only_one_side_is_stuck() {
    // The side to move has no move; the score is the negation of the
    // swapped board's search at the same depth.
    let mut board = BoardInfo {
        now_turn: BLACK,
        now_index: 10,
        player_board: 0x4000000000000000,
        opponent_board: 0x8000000000000000,
    };
    let mut swapped = board.clone();
    swap(&mut swapped);
    let ours = negamax(i32::MIN + 1, i32::MAX - 1, 2, &mut board, EVAL_PERFECT);
    let theirs = negamax(i32::MIN + 1, i32::MAX - 1, 2, &mut swapped, EVAL_PERFECT);
    assert_eq!(ours, -theirs);
}

#[test]
fn choose_evaluator_follows_the_phase() {
    let mk = |idx: i8| BoardInfo {
        now_turn: BLACK,
        now_index: idx,
        player_board: 0x0000000810000000,
        opponent_board: 0x0000001008000000,
    };
    assert_eq!(choose_evaluator(&mk(1)), EVAL_NORMAL);
    assert_eq!(choose_evaluator(&mk(41)), EVAL_NORMAL);
    assert_eq!(choose_evaluator(&mk(42)), EVAL_WIN);
    assert_eq!(choose_evaluator(&mk(43)), EVAL_WIN);
    assert_eq!(choose_evaluator(&mk(44)), EVAL_PERFECT);
    assert_eq!(choose_evaluator(&mk(60)), EVAL_PERFECT);
}

#[test]
fn decider_passes_without_moves() {
    let board = BoardInfo {
        now_turn: BLACK,
        now_index: 10,
        player_board: 0x4000000000000000,
        opponent_board: 0x8000000000000000,
    };
    assert_eq!(choose_root_move(&board, EVAL_NORMAL, 3), 0);
}

#[test]
fn decider_takes_a_forced_move_directly() {
    // Only C1 is legal: it comes back without a search.
    let board = BoardInfo {
        now_turn: BLACK,
        now_index: 10,
        player_board: 0x8000000000000000,
        opponent_board: 0x4000000000000000,
    };
    assert_eq!(choose_root_move(&board, EVAL_NORMAL, 3), 0x2000000000000000);
}

#[test]
fn win_shortcut_returns_the_winning_move() {
    // Two legal moves: D1 flips B1 and C1 and wins on discs; A3 flips A2
    // and loses.  In win-only mode the decider returns D1.
    let board = BoardInfo {
        now_turn: BLACK,
        now_index: 55,
        player_board: 0x8000000000000000,
        opponent_board: 0x6080000000000003,
    };
    let legal = make_legal_board(&board);
    let d1 = 0x1000000000000000;
    let a3 = 0x0000800000000000;
    assert_eq!(legal, d1 | a3);
    assert_eq!(search_root_move(&board, d1, 1, EVAL_WIN), 1);
    assert_eq!(search_root_move(&board, a3, 1, EVAL_WIN), -1);
    assert_eq!(choose_root_move(&board, EVAL_WIN, 1), d1);
}

#[test]
fn fallback_fires_only_under_endgame_time_pressure() {
    // In the endgame band with little clock left the decider backs off.
    assert!(should_fallback(EVAL_WIN, 12000, 3, 43));
    assert!(should_fallback(EVAL_PERFECT, 9000, 0, 44));
    // Plenty of clock: no fallback.
    assert!(!should_fallback(EVAL_WIN, 500000, 3, 43));
    // The heuristic evaluator never falls back.
    assert!(!should_fallback(EVAL_NORMAL, 9000, 0, 43));
    // Outside the deep-search band: no fallback.
    assert!(!should_fallback(EVAL_PERFECT, 9000, 0, 50));
}

#[test]
fn concat_reads_digit_runs() {
    assert_eq!(reversi::protocol::concat(&vec![b'1', b'2', b'3', b'4', b'5']), 12345);
    assert_eq!(reversi::protocol::concat(&vec![b'0']), 0);
    assert_eq!(reversi::protocol::concat(&vec![b'9', b'9', b'9', b'9', b'9', b'9', b'9', b'9', b'9']), 999999999);
    assert_eq!(reversi::protocol::concat(&Vec::new()), 0);
}

#[test]
fn read_start_parses_the_start_line() {
    let line: Vec<u8> = b"START BLACK rival 600000\n".to_vec();
    let (color, name, left) = read_start(&line);
    assert_eq!(color, BLACK);
    assert_eq!(name, vec!['r', 'i', 'v', 'a', 'l']);
    assert_eq!(left, 600000);
}

#[test]
fn read_start_reads_white() {
    let line: Vec<u8> = b"START WHITE x 1\n".to_vec();
    let (color, name, left) = read_start(&line);
    assert_eq!(color, WHITE);
    assert_eq!(name, vec!['x']);
    assert_eq!(left, 1);
}

#[test]
fn legal_mask_matches_place_acceptance() {
    // Over the whole initial board: place accepts exactly the squares of
    // the legal mask.
    let board = initial_board();
    let legal = make_legal_board(&board);
    for i in 0..64u32 {
        let m = 1u64 << i;
        let mut copy = board.clone();
        let status = place(m, &mut copy);
        if m & legal != 0 {
            assert_ne!(status, PLACE_ERR);
        } else {
            assert_eq!(status, PLACE_ERR);
        }
    }
}

#[test]
fn every_legal_move_flips_a_disc() {
    let board = initial_board();
    let legal = make_legal_board(&board);
    for i in 0..64u32 {
        let m = 1u64 << i;
        if m & legal != 0 {
            let mut copy = board.clone();
            place(m, &mut copy);
            let filled_before = (board.player_board | board.opponent_board).count_ones();
            let filled_after = (copy.player_board | copy.opponent_board).count_ones();
            assert_eq!(filled_after, filled_before + 1);
            // At least one disc changed color.
            assert_ne!(copy.opponent_board, board.opponent_board);
        }
    }
}
