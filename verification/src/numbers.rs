//! Decimal numbers in text: reading them with their range, and writing them.

use crate::text::text_of;
use vstd::prelude::*;

verus! {

/// A decimal digit.
pub open spec fn is_digit(c: char) -> bool {
    '0' <= c && c <= '9'
}

/// One digit or more, and nothing else.
pub open spec fn all_digits(s: Seq<char>) -> bool {
    s.len() > 0 && forall|i: int| 0 <= i < s.len() ==> is_digit(#[trigger] s[i])
}

/// What a run of digits stands for.
pub open spec fn value(s: Seq<char>) -> nat
    decreases s.len(),
{
    if s.len() == 0 {
        0
    } else {
        (value(s.drop_last()) * 10 + (s.last() as int - '0' as int)) as nat
    }
}

/// The number that a text stands for: digits behind an optional plus sign, or
/// behind a minus sign where `signed`.
pub open spec fn number_of(s: Seq<char>, signed: bool) -> Option<int> {
    if s.len() > 0 && s[0] == '+' {
        if all_digits(s.skip(1)) {
            Some(value(s.skip(1)) as int)
        } else {
            None
        }
    } else if s.len() > 0 && s[0] == '-' && signed {
        if all_digits(s.skip(1)) {
            Some(-(value(s.skip(1)) as int))
        } else {
            None
        }
    } else if all_digits(s) {
        Some(value(s) as int)
    } else {
        None
    }
}

/// The number that a text stands for where it lies between `lo` and `hi`.
pub open spec fn parsed(s: Seq<char>, lo: int, hi: int) -> Option<int> {
    match number_of(s, lo < 0) {
        Some(n) => if lo <= n <= hi {
            Some(n)
        } else {
            None
        },
        None => None,
    }
}

pub proof fn lemma_value_grows(s: Seq<char>, k: int)
    requires
        all_digits(s),
        0 <= k <= s.len(),
    ensures
        value(s.take(k)) <= value(s),
    decreases s.len(),
{
    if k < s.len() {
        if s.len() == 1 {
            assert(s.take(k).len() == 0);
        } else {
            assert(all_digits(s.drop_last())) by {
                assert forall|i: int| 0 <= i < s.drop_last().len() implies is_digit(
                    #[trigger] s.drop_last()[i],
                ) by {
                    assert(is_digit(s[i]));
                }
            }
            lemma_value_grows(s.drop_last(), k);
            assert(s.drop_last().take(k) == s.take(k));
        }
        assert(is_digit(s[s.len() - 1]));
    } else {
        assert(s.take(k) == s);
    }
}

/// The largest bound that the readers below take.
pub const BOUND: u64 = 0xffff_ffff_ffff_ffff;

/// Reads a run of digits from `from` on; nothing where it is none or exceeds `BOUND`.
fn parse_digits(s: &[char], from: usize) -> (r: Option<u64>)
    requires
        from <= s@.len(),
    ensures
        ({
            let t = s@.skip(from as int);
            match r {
                Some(n) => all_digits(t) && value(t) == n,
                None => !all_digits(t) || value(t) > BOUND,
            }
        }),
{
    let ghost t = s@.skip(from as int);
    if from == s.len() {
        return None;
    }
    let mut acc: u64 = 0;
    let mut i: usize = from;
    while i < s.len()
        invariant
            from <= i <= s@.len(),
            t == s@.skip(from as int),
            forall|j: int| 0 <= j < i - from ==> is_digit(#[trigger] t[j]),
            acc == value(t.take(i - from)),
        decreases s@.len() - i,
    {
        let c = s[i];
        proof {
            assert(t[i - from] == c);
            assert(t.take(i - from + 1).drop_last() == t.take(i - from));
            assert(t.take(i - from + 1).last() == c);
        }
        if c < '0' || c > '9' {
            return None;
        }
        let d: u64 = (c as u32 - '0' as u32) as u64;
        if acc > (BOUND - d) / 10 {
            proof {
                if all_digits(t) {
                    lemma_value_grows(t, i - from + 1);
                }
            }
            return None;
        }
        acc = acc * 10 + d;
        i += 1;
    }
    proof {
        assert(t.take(t.len() as int) == t);
    }
    Some(acc)
}

/// Reads an unsigned number that is at most `hi`.
pub fn parse_unsigned(s: &[char], hi: u64) -> (r: Option<u64>)
    ensures
        match r {
            Some(n) => parsed(s@, 0, hi as int) == Some(n as int),
            None => parsed(s@, 0, hi as int) is None,
        },
{
    proof {
        assert(s@.skip(0) == s@);
    }
    if s.len() > 0 && s[0] == '+' {
        match parse_digits(s, 1) {
            Some(n) => if n <= hi { Some(n) } else { None },
            None => None,
        }
    } else {
        match parse_digits(s, 0) {
            Some(n) => if n <= hi { Some(n) } else { None },
            None => None,
        }
    }
}

/// Reads a signed 32 bit number.
pub fn parse_i32(s: &[char]) -> (r: Option<i32>)
    ensures
        match r {
            Some(n) => parsed(s@, i32::MIN as int, i32::MAX as int) == Some(n as int),
            None => parsed(s@, i32::MIN as int, i32::MAX as int) is None,
        },
{
    proof {
        assert(s@.skip(0) == s@);
    }
    let negative = s.len() > 0 && s[0] == '-';
    let from: usize = if s.len() > 0 && (s[0] == '-' || s[0] == '+') { 1 } else { 0 };
    match parse_digits(s, from) {
        Some(n) => {
            if negative {
                if n <= 0x8000_0000 {
                    Some((0 - (n as i64)) as i32)
                } else {
                    None
                }
            } else if n <= 0x7fff_ffff {
                Some(n as i32)
            } else {
                None
            }
        },
        None => {
            proof {
                if from == 0 && s@.len() > 0 && s@[0] == '-' {
                    assert(!is_digit(s@[0]));
                }
            }
            None
        },
    }
}

/// The digits of a number.
pub open spec fn digits_of(n: nat) -> Seq<char>
    decreases n,
{
    if n < 10 {
        seq![('0' as int + n) as char]
    } else {
        digits_of(n / 10).push(('0' as int + n % 10) as char)
    }
}

/// A number written out: its digits, behind a minus sign where it is negative.
pub open spec fn int_text(n: int) -> Seq<char> {
    if n < 0 {
        seq!['-'] + digits_of((-n) as nat)
    } else {
        digits_of(n as nat)
    }
}

fn digit_char(d: u64) -> (c: char)
    requires
        d < 10,
    ensures
        c == ('0' as int + d) as char,
{
    (48u8 + d as u8) as char
}

/// Writes the digits of a number.
pub fn write_digits(n: u64) -> (r: Vec<char>)
    ensures
        r@ == digits_of(n as nat),
    decreases n,
{
    if n < 10 {
        let mut r: Vec<char> = Vec::new();
        r.push(digit_char(n));
        proof {
            assert(r@ =~= digits_of(n as nat));
        }
        r
    } else {
        let mut r = write_digits(n / 10);
        r.push(digit_char(n % 10));
        r
    }
}

/// Writes a number.
pub fn write_int(n: i64) -> (r: Vec<char>)
    requires
        n > i64::MIN,
    ensures
        r@ == int_text(n as int),
{
    if n < 0 {
        let mut r: Vec<char> = Vec::new();
        r.push('-');
        let d = write_digits((0 - n) as u64);
        crate::text::append(&mut r, d.as_slice());
        proof {
            assert(r@ =~= int_text(n as int));
        }
        r
    } else {
        write_digits(n as u64)
    }
}

/// A number as a text.
pub fn int_string(n: i64) -> (r: String)
    requires
        n > i64::MIN,
    ensures
        r@ == int_text(n as int),
{
    let v = write_int(n);
    text_of(v.as_slice())
}

/// What is written for a natural number are digits, and they stand for it.
pub proof fn digits_read_back(n: nat)
    ensures
        all_digits(digits_of(n)),
        value(digits_of(n)) == n,
    decreases n,
{
    if n < 10 {
        let s = digits_of(n);
        assert(s.drop_last().len() == 0);
        assert(value(s.drop_last()) == 0);
        assert(s.last() == ('0' as int + n) as char);
    } else {
        digits_read_back(n / 10);
        let s = digits_of(n);
        assert(s.drop_last() == digits_of(n / 10));
        assert(s.last() == ('0' as int + n % 10) as char);
        assert forall|i: int| 0 <= i < s.len() implies is_digit(#[trigger] s[i]) by {
            if i < s.len() - 1 {
                assert(s[i] == digits_of(n / 10)[i]);
            }
        }
    }
}

/// A number that is written out reads back as itself.
pub proof fn number_reads_back(n: int)
    ensures
        number_of(int_text(n), true) == Some(n),
        n >= 0 ==> number_of(int_text(n), false) == Some(n),
{
    if n < 0 {
        digits_read_back((-n) as nat);
        assert(int_text(n).skip(1) == digits_of((-n) as nat));
    } else {
        digits_read_back(n as nat);
        assert(is_digit(int_text(n)[0]));
    }
}

/// A number is read where it lies in the range, from its digits with or without a plus sign
/// and with any zeros before them; a number outside of the range is not.
pub proof fn numbers_are_read_in_their_range(n: int, lo: int, hi: int)
    requires
        lo <= 0,
        n < 0 ==> lo < 0,
    ensures
        parsed(int_text(n), lo, hi) == (if lo <= n <= hi {
            Some(n)
        } else {
            None
        }),
        n >= 0 ==> parsed(seq!['+'] + int_text(n), lo, hi) == parsed(int_text(n), lo, hi),
        n >= 0 ==> parsed(seq!['0'] + int_text(n), lo, hi) == parsed(int_text(n), lo, hi),
{
    number_reads_back(n);
    if n >= 0 {
        let s = int_text(n);
        digits_read_back(n as nat);
        let plus = seq!['+'] + s;
        assert(plus.skip(1) =~= s);
        let zero = seq!['0'] + s;
        assert forall|i: int| 0 <= i < zero.len() implies is_digit(#[trigger] zero[i]) by {
            if i > 0 {
                assert(is_digit(s[i - 1]));
            }
        }
        zeros_before_a_number_do_not_count(s);
        assert(is_digit(s[0]));
    }
}

/// A zero before digits does not change what they stand for, and a digit behind them adds
/// to ten times as much.
pub proof fn zeros_before_a_number_do_not_count(s: Seq<char>)
    requires
        all_digits(s),
    ensures
        value(seq!['0'] + s) == value(s),
        forall|d: char| is_digit(d) ==> #[trigger] value(s.push(d)) == value(s) * 10 + (d as int - '0' as int),
    decreases s.len(),
{
    let zero = seq!['0'] + s;
    assert(zero.drop_last() =~= seq!['0'] + s.drop_last());
    assert(is_digit(s[s.len() - 1]));
    if s.len() > 1 {
        assert forall|i: int| 0 <= i < s.drop_last().len() implies is_digit(#[trigger] s.drop_last()[i]) by {
            assert(is_digit(s[i]));
        }
        zeros_before_a_number_do_not_count(s.drop_last());
    } else {
        assert(s.drop_last() =~= seq![]);
        assert(zero.drop_last() =~= seq!['0']);
        assert(seq!['0'].drop_last() =~= seq![]);
        assert(value(seq!['0'].drop_last()) == 0);
        assert(value(seq!['0']) == 0);
    }
    assert forall|d: char| is_digit(d) implies #[trigger] value(s.push(d)) == value(s) * 10 + (d as int - '0' as int) by {
        assert(s.push(d).drop_last() =~= s);
    }
}

/// A text is no number where it is empty or has a character, other than a sign at its
/// beginning, that is no digit.
pub proof fn other_texts_are_no_numbers(s: Seq<char>, i: int, lo: int, hi: int)
    requires
        s.len() == 0 || (0 < i < s.len() && !('0' <= s[i] && s[i] <= '9')) || (i == 0 && !('0' <= s[0] && s[0] <= '9')
            && s[0] != '+' && (s[0] != '-' || lo >= 0 || s.len() == 1)) || (s.len() == 1 && s[0] == '+'),
    ensures
        parsed(s, lo, hi) is None,
{
    if s.len() > 0 {
        if 0 < i < s.len() {
            assert(s.skip(1)[i - 1] == s[i]);
            assert(!is_digit(s[i]));
        } else {
            assert(!is_digit(s[0]));
        }
    }
}

/// A number is written without zeros before it.
pub proof fn numbers_are_written_without_zeros(n: nat)
    ensures
        digits_of(n).len() >= 1,
        n > 0 ==> digits_of(n)[0] != '0',
        n == 0 ==> digits_of(n) == seq!['0'],
    decreases n,
{
    if n >= 10 {
        numbers_are_written_without_zeros(n / 10);
    }
}

} // verus!
