//! Parsing of the match server's session lines.

use vstd::prelude::*;
use crate::board::{BLACK, WHITE};

verus! {

/// The number a run of decimal digit bytes denotes.
pub open spec fn spec_digits_val(s: Seq<u8>) -> int
    decreases s.len(),
{
    if s.len() == 0 {
        0
    } else {
        spec_digits_val(s.drop_last()) * 10 + (s.last() - 48)
    }
}

/// Ten to the `k`.
pub open spec fn pow10(k: int) -> int
    decreases k,
{
    if k <= 0 {
        1
    } else {
        10 * pow10(k - 1)
    }
}

/// A digit string's value stays below ten to its length.
pub proof fn lemma_digits_val_bound(s: Seq<u8>)
    requires
        forall|j: int| 0 <= j < s.len() ==> 48 <= #[trigger] s[j] <= 57,
    ensures
        0 <= spec_digits_val(s) < pow10(s.len() as int),
    decreases s.len(),
{
    if s.len() > 0 {
        lemma_digits_val_bound(s.drop_last());
    }
}

/// Reads a run of decimal digit bytes as a number.
pub fn concat(vec: &Vec<u8>) -> (r: i32)
    requires
        vec@.len() <= 9,
        forall|j: int| 0 <= j < vec@.len() ==> 48 <= #[trigger] vec@[j] <= 57,
    ensures
        r == spec_digits_val(vec@),
{
    proof {
        reveal_with_fuel(pow10, 11);
    }
    let mut acc: i32 = 0;
    let mut i: usize = 0;
    while i < vec.len()
        invariant
            0 <= i <= vec@.len() <= 9,
            forall|j: int| 0 <= j < vec@.len() ==> 48 <= #[trigger] vec@[j] <= 57,
            acc == spec_digits_val(vec@.subrange(0, i as int)),
            0 <= acc < pow10(i as int),
            pow10(9) == 1000000000,
            pow10(i as int) <= pow10(9),
        decreases vec@.len() - i,
    {
        proof {
            reveal_with_fuel(pow10, 11);
            lemma_digits_val_bound(vec@.subrange(0, i as int));
            assert(vec@.subrange(0, i as int + 1).drop_last() =~= vec@.subrange(0, i as int));
            assert(vec@.subrange(0, i as int + 1).last() == vec@[i as int]);
        }
        acc *= 10;
        acc += vec[i] as i32 - 48;
        i += 1;
    }
    proof {
        assert(vec@.subrange(0, vec@.len() as int) =~= vec@);
    }
    acc
}

/// The first index at or after `i` holding the byte of `B` or `W`, or the
/// length of `s` when there is none.
pub open spec fn find_bw(s: Seq<u8>, i: int) -> int
    decreases s.len() - i,
{
    if i < 0 || i >= s.len() {
        s.len() as int
    } else if s[i] == 'B' as u8 || s[i] == 'W' as u8 {
        i
    } else {
        find_bw(s, i + 1)
    }
}

/// The first index at or after `i` holding a space, or the length of `s`.
pub open spec fn find_space(s: Seq<u8>, i: int) -> int
    decreases s.len() - i,
{
    if i < 0 || i >= s.len() {
        s.len() as int
    } else if s[i] == ' ' as u8 {
        i
    } else {
        find_space(s, i + 1)
    }
}

/// The first index at or after `i` holding a newline, or the length of `s`.
pub open spec fn find_newline(s: Seq<u8>, i: int) -> int
    decreases s.len() - i,
{
    if i < 0 || i >= s.len() {
        s.len() as int
    } else if s[i] == '\n' as u8 {
        i
    } else {
        find_newline(s, i + 1)
    }
}

/// A scan can only find its byte at or after where it starts.
pub proof fn lemma_find_ge(s: Seq<u8>, i: int)
    requires
        0 <= i <= s.len(),
    ensures
        i <= find_bw(s, i) <= s.len(),
        i <= find_space(s, i) <= s.len(),
        i <= find_newline(s, i) <= s.len(),
    decreases s.len() - i,
{
    if i < s.len() {
        lemma_find_ge(s, i + 1);
    }
}

/// A well-formed `START` line: it opens with `S`, names a color by a `B` or
/// `W`, carries a space-terminated opponent name six bytes later, and ends
/// with a newline-terminated run of at most nine digits, the remaining
/// clock in milliseconds.
pub open spec fn start_msg_wf(s: Seq<u8>) -> bool {
    let bw = find_bw(s, 1);
    let sp = find_space(s, bw + 6);
    let nl = find_newline(s, sp + 1);
    &&& s.len() >= 1
    &&& s[0] == 'S' as u8
    &&& 1 <= bw < s.len()
    &&& bw + 6 <= sp < s.len()
    &&& sp + 1 <= nl < s.len()
    &&& nl - (sp + 1) <= 9
    &&& forall|j: int| sp + 1 <= j < nl ==> 48 <= #[trigger] s[j] <= 57
}

/// Reads a `START` line: the color assigned to us, the opponent's name,
/// and the clock we start with.
pub fn read_start(buffer: &Vec<u8>) -> (r: (i8, Vec<char>, i32))
    requires
        start_msg_wf(buffer@),
    ensures
        ({
            let s = buffer@;
            let bw = find_bw(s, 1);
            let sp = find_space(s, bw + 6);
            let nl = find_newline(s, sp + 1);
            &&& r.0 == (if s[bw] == 'B' as u8 {
                BLACK
            } else {
                WHITE
            })
            &&& r.1@ == s.subrange(bw + 6, sp).map(|j: int, c: u8| c as char)
            &&& r.2 == spec_digits_val(s.subrange(sp + 1, nl))
        }),
{
    let ghost s = buffer@;
    let ghost bw = find_bw(s, 1);
    let ghost sp = find_space(s, bw + 6);
    let ghost nl = find_newline(s, sp + 1);
    let n: usize = buffer.len();
    proof {
        assert(s.len() == n as int);
        assert(s.len() <= usize::MAX);
    }

    let mut i: usize = 1;
    while buffer[i] != 'B' as u8 && buffer[i] != 'W' as u8
        invariant
            s == buffer@,
            s.len() <= usize::MAX,
            start_msg_wf(s),
            bw == find_bw(s, 1),
            1 <= i <= bw,
            find_bw(s, i as int) == bw,
        decreases bw - i,
    {
        proof {
            lemma_find_ge(s, i + 1);
            assert(find_bw(s, i as int) == find_bw(s, i + 1));
        }
        i += 1;
    }
    let my_color: i8;
    if buffer[i] == 'B' as u8 {
        my_color = BLACK;
    } else {
        my_color = WHITE;
    }
    proof {
        assert(i == bw);
    }
    i += 6;
    let mut opponent_name: Vec<char> = Vec::new();
    while buffer[i] != ' ' as u8
        invariant
            s == buffer@,
            s.len() <= usize::MAX,
            start_msg_wf(s),
            bw == find_bw(s, 1),
            sp == find_space(s, bw + 6),
            bw + 6 <= i <= sp,
            find_space(s, i as int) == sp,
            opponent_name@ == s.subrange(bw + 6, i as int).map(|j: int, c: u8| c as char),
        decreases sp - i,
    {
        opponent_name.push(buffer[i] as char);
        proof {
            lemma_find_ge(s, i + 1);
            assert(find_space(s, i as int) == find_space(s, i + 1));
            assert(s.subrange(bw + 6, i + 1).map(|j: int, c: u8| c as char) =~= s.subrange(
                bw + 6,
                i as int,
            ).map(|j: int, c: u8| c as char).push(s[i as int] as char));
        }
        i += 1;
    }
    i += 1;
    let mut left_time_vec: Vec<u8> = Vec::new();
    while buffer[i] != '\n' as u8
        invariant
            s == buffer@,
            s.len() <= usize::MAX,
            start_msg_wf(s),
            bw == find_bw(s, 1),
            sp == find_space(s, bw + 6),
            nl == find_newline(s, sp + 1),
            sp + 1 <= i <= nl,
            find_newline(s, i as int) == nl,
            left_time_vec@ == s.subrange(sp + 1, i as int),
        decreases nl - i,
    {
        left_time_vec.push(buffer[i]);
        proof {
            lemma_find_ge(s, i + 1);
            assert(find_newline(s, i as int) == find_newline(s, i + 1));
            assert(s.subrange(sp + 1, i + 1) =~= s.subrange(sp + 1, i as int).push(s[i as int]));
        }
        i += 1;
    }
    proof {
        assert(left_time_vec@ =~= s.subrange(sp + 1, nl));
    }
    let left_time: i32 = concat(&left_time_vec);
    (my_color, opponent_name, left_time)
}

} // verus!
