//! Decimal digit strings: formatting integers as strings and parsing
//! digit strings back, with exact specifications.

use vstd::prelude::*;

verus! {

/// The character standing for one decimal digit.
pub open spec fn digit_char(d: int) -> char {
    if d == 0 {
        '0'
    } else if d == 1 {
        '1'
    } else if d == 2 {
        '2'
    } else if d == 3 {
        '3'
    } else if d == 4 {
        '4'
    } else if d == 5 {
        '5'
    } else if d == 6 {
        '6'
    } else if d == 7 {
        '7'
    } else if d == 8 {
        '8'
    } else {
        '9'
    }
}

/// Decimal digit string of a natural number, most significant digit first,
/// without leading zeros (except for zero itself).
pub open spec fn dec_digits(n: nat) -> Seq<char>
    decreases n,
{
    if n < 10 {
        seq![digit_char(n as int)]
    } else {
        dec_digits(n / 10).push(digit_char((n % 10) as int))
    }
}

/// Decimal string of an integer: a leading minus sign for negatives.
pub open spec fn int_digits(m: int) -> Seq<char> {
    if m < 0 {
        seq!['-'] + dec_digits((-m) as nat)
    } else {
        dec_digits(m as nat)
    }
}

pub open spec fn is_dec_digit(c: char) -> bool {
    '0' <= c && c <= '9'
}

/// Numeric value of one digit character; non-digits count as zero.
pub open spec fn digit_val(c: char) -> nat {
    if is_dec_digit(c) {
        (c as int - '0' as int) as nat
    } else {
        0
    }
}

pub open spec fn all_dec_digits(s: Seq<char>) -> bool {
    forall|i: int| 0 <= i < s.len() ==> is_dec_digit(#[trigger] s[i])
}

/// Value of a digit string read as a base-10 numeral.
pub open spec fn digits_val(s: Seq<char>) -> nat
    decreases s.len(),
{
    if s.len() == 0 {
        0
    } else {
        digits_val(s.drop_last()) * 10 + digit_val(s.last())
    }
}

fn digit_str(d: u8) -> (r: &'static str)
    requires
        d < 10,
    ensures
        r@ =~= seq![digit_char(d as int)],
{
    proof {
        reveal_strlit("0");
        reveal_strlit("1");
        reveal_strlit("2");
        reveal_strlit("3");
        reveal_strlit("4");
        reveal_strlit("5");
        reveal_strlit("6");
        reveal_strlit("7");
        reveal_strlit("8");
        reveal_strlit("9");
    }
    match d {
        0 => "0",
        1 => "1",
        2 => "2",
        3 => "3",
        4 => "4",
        5 => "5",
        6 => "6",
        7 => "7",
        8 => "8",
        _ => "9",
    }
}

/// Formats a natural number as its decimal digit string.
pub fn u128_to_string(n: u128) -> (r: String)
    ensures
        r@ == dec_digits(n as nat),
    decreases n,
{
    if n < 10 {
        digit_str(n as u8).to_owned()
    } else {
        let mut s = u128_to_string(n / 10);
        s.append(digit_str((n % 10) as u8));
        proof {
            assert(s@ =~= dec_digits(n as nat));
        }
        s
    }
}

/// Formats an integer as its decimal digit string, minus sign included.
pub fn i128_to_string(m: i128) -> (r: String)
    requires
        m != i128::MIN,
    ensures
        r@ == int_digits(m as int),
{
    if m < 0 {
        proof {
            reveal_strlit("-");
        }
        let mut s = "-".to_owned();
        s.append(u128_to_string((-m) as u128).as_str());
        proof {
            assert(s@ =~= int_digits(m as int));
        }
        s
    } else {
        u128_to_string(m as u128)
    }
}

/// A digit string's value never shrinks when digits are appended.
proof fn lemma_digits_val_take(s: Seq<char>, k: int)
    requires
        0 <= k <= s.len(),
    ensures
        digits_val(s.take(k)) <= digits_val(s),
    decreases s.len() - k,
{
    if k < s.len() {
        lemma_digits_val_take(s.drop_last(), k);
        assert(s.drop_last().take(k) =~= s.take(k));
        assert(digits_val(s.drop_last()) * 10 >= digits_val(s.drop_last()) * 1);
    } else {
        assert(s.take(k) =~= s);
    }
}

/// Decides whether the character range `[from, to)` is all digits.
pub fn check_all_digits(s: &str, from: usize, to: usize) -> (r: bool)
    requires
        from <= to <= s@.len(),
    ensures
        r == all_dec_digits(s@.subrange(from as int, to as int)),
{
    let ghost whole = s@.subrange(from as int, to as int);
    let mut i: usize = from;
    while i < to
        invariant
            from <= i <= to <= s@.len(),
            whole == s@.subrange(from as int, to as int),
            forall|j: int| 0 <= j < i - from ==> is_dec_digit(#[trigger] whole[j]),
        decreases to - i,
    {
        let u = s.get_char(i) as u32;
        if u < 48 || u > 57 {
            proof {
                assert(whole[i - from] == s@[i as int]);
            }
            return false;
        }
        proof {
            assert(whole[i - from] == s@[i as int]);
        }
        i = i + 1;
    }
    true
}

/// Parses the character range `[from, to)` of `s` as an unsigned base-10
/// numeral.  Succeeds exactly on a nonempty all-digit range whose value
/// fits in `u128`.
pub fn parse_u128_range(s: &str, from: usize, to: usize) -> (r: Option<u128>)
    requires
        from <= to <= s@.len(),
    ensures
        match r {
            Some(v) => {
                &&& from < to
                &&& all_dec_digits(s@.subrange(from as int, to as int))
                &&& digits_val(s@.subrange(from as int, to as int)) <= u128::MAX
                &&& v == digits_val(s@.subrange(from as int, to as int))
            },
            None => {
                ||| from == to
                ||| !all_dec_digits(s@.subrange(from as int, to as int))
                ||| digits_val(s@.subrange(from as int, to as int)) > u128::MAX
            },
        },
{
    if from == to {
        return None;
    }
    let ghost whole = s@.subrange(from as int, to as int);
    let mut acc: u128 = 0;
    let mut i: usize = from;
    while i < to
        invariant
            from <= i <= to <= s@.len(),
            whole == s@.subrange(from as int, to as int),
            all_dec_digits(whole.take(i - from)),
            acc == digits_val(whole.take(i - from)),
        decreases to - i,
    {
        let c = s.get_char(i);
        let u = c as u32;
        if u < 48 || u > 57 {
            assert(whole[i - from] == c);
            assert(!is_dec_digit(c));
            return None;
        }
        let d = (u - 48) as u128;
        assert(is_dec_digit(c) && digit_val(c) == d);
        if acc > (u128::MAX - d) / 10 {
            proof {
                let p = whole.take(i - from + 1);
                assert(p.drop_last() =~= whole.take(i - from));
                assert(p.last() == c);
                assert(digits_val(p) == acc * 10 + d);
                assert(acc * 10 + d > u128::MAX);
                lemma_digits_val_take(whole, i - from + 1);
            }
            return None;
        }
        assert(acc * 10 + d <= u128::MAX);
        acc = acc * 10 + d;
        proof {
            let p = whole.take(i - from + 1);
            assert(p.drop_last() =~= whole.take(i - from));
            assert(p.last() == c);
            assert(forall|j: int| 0 <= j < p.len() ==> is_dec_digit(#[trigger] p[j]));
        }
        i = i + 1;
    }
    proof {
        assert(whole.take(to - from) =~= whole);
    }
    Some(acc)
}

/// The character for one lowercase hexadecimal digit.
pub open spec fn hex_char(d: int) -> char {
    if d < 10 {
        digit_char(d)
    } else if d == 10 {
        'a'
    } else if d == 11 {
        'b'
    } else if d == 12 {
        'c'
    } else if d == 13 {
        'd'
    } else if d == 14 {
        'e'
    } else {
        'f'
    }
}

/// Exactly `w` lowercase hexadecimal digits of `n`, zero-padded, most
/// significant first.
pub open spec fn hex_fixed(n: nat, w: nat) -> Seq<char>
    decreases w,
{
    if w == 0 {
        Seq::<char>::empty()
    } else {
        hex_fixed(n / 16, (w - 1) as nat).push(hex_char((n % 16) as int))
    }
}

fn hex_digit_str(d: u8) -> (r: &'static str)
    requires
        d < 16,
    ensures
        r@ =~= seq![hex_char(d as int)],
{
    if d < 10 {
        digit_str(d)
    } else {
        proof {
            reveal_strlit("a");
            reveal_strlit("b");
            reveal_strlit("c");
            reveal_strlit("d");
            reveal_strlit("e");
            reveal_strlit("f");
        }
        match d {
            10 => "a",
            11 => "b",
            12 => "c",
            13 => "d",
            14 => "e",
            _ => "f",
        }
    }
}

/// Formats `n` as exactly `w` lowercase hexadecimal digits.
pub fn u128_to_hex_fixed(n: u128, w: u32) -> (r: String)
    ensures
        r@ == hex_fixed(n as nat, w as nat),
    decreases w,
{
    if w == 0 {
        let s = String::new();
        proof {
            assert(s@ =~= hex_fixed(n as nat, 0));
        }
        s
    } else {
        let mut s = u128_to_hex_fixed(n / 16, w - 1);
        s.append(hex_digit_str((n % 16) as u8));
        proof {
            assert(s@ =~= hex_fixed(n as nat, w as nat));
        }
        s
    }
}

pub open spec fn is_hex_digit(c: char) -> bool {
    ('0' <= c && c <= '9') || ('a' <= c && c <= 'f') || ('A' <= c && c <= 'F')
}

/// Numeric value of one hexadecimal digit character; others count zero.
pub open spec fn hex_val(c: char) -> nat {
    if '0' <= c && c <= '9' {
        (c as int - '0' as int) as nat
    } else if 'a' <= c && c <= 'f' {
        (c as int - 'a' as int + 10) as nat
    } else if 'A' <= c && c <= 'F' {
        (c as int - 'A' as int + 10) as nat
    } else {
        0
    }
}

pub open spec fn all_hex_digits(s: Seq<char>) -> bool {
    forall|i: int| 0 <= i < s.len() ==> is_hex_digit(#[trigger] s[i])
}

/// Value of a hexadecimal digit string.
pub open spec fn hexs_val(s: Seq<char>) -> nat
    decreases s.len(),
{
    if s.len() == 0 {
        0
    } else {
        hexs_val(s.drop_last()) * 16 + hex_val(s.last())
    }
}

/// A hexadecimal string's value is below sixteen to its length.
pub proof fn lemma_hexs_val_bound(s: Seq<char>, w: nat)
    requires
        s.len() <= w,
    ensures
        hexs_val(s) < pow16(w),
    decreases s.len(),
{
    lemma_pow16_pos(w);
    if s.len() > 0 {
        lemma_hexs_val_bound(s.drop_last(), (w - 1) as nat);
        assert(pow16(w) == 16 * pow16((w - 1) as nat));
    } else {
    }
}

pub open spec fn pow16(e: nat) -> nat
    decreases e,
{
    if e == 0 {
        1
    } else {
        16 * pow16((e - 1) as nat)
    }
}

pub proof fn lemma_pow16_pos(e: nat)
    ensures
        pow16(e) >= 1,
    decreases e,
{
    if e > 0 {
        lemma_pow16_pos((e - 1) as nat);
    }
}

/// Thirty-two hexadecimal digits cover exactly the 128-bit range.
#[verifier::rlimit(60)]
pub proof fn lemma_pow16_32_fits()
    ensures
        pow16(32) == u128::MAX + 1,
{
    reveal_with_fuel(pow16, 34);
}

/// Parses the character range `[from, to)` of `s` as hexadecimal digits.
/// At most 32 digits fit losslessly; the range must be nonempty, all
/// hexadecimal, and no longer than 32.
pub fn parse_hex_range(s: &str, from: usize, to: usize) -> (r: Option<u128>)
    requires
        from <= to <= s@.len(),
    ensures
        match r {
            Some(v) => {
                &&& from < to
                &&& to - from <= 32
                &&& all_hex_digits(s@.subrange(from as int, to as int))
                &&& v == hexs_val(s@.subrange(from as int, to as int))
            },
            None => {
                ||| from == to
                ||| to - from > 32
                ||| !all_hex_digits(s@.subrange(from as int, to as int))
            },
        },
{
    if from == to || to - from > 32 {
        return None;
    }
    let ghost whole = s@.subrange(from as int, to as int);
    let mut acc: u128 = 0;
    let mut i: usize = from;
    while i < to
        invariant
            from <= i <= to <= s@.len(),
            to - from <= 32,
            whole == s@.subrange(from as int, to as int),
            all_hex_digits(whole.take(i - from)),
            acc == hexs_val(whole.take(i - from)),
        decreases to - i,
    {
        let c = s.get_char(i);
        let u = c as u32;
        let d: u128 = if 48 <= u && u <= 57 {
            (u - 48) as u128
        } else if 97 <= u && u <= 102 {
            (u - 97 + 10) as u128
        } else if 65 <= u && u <= 70 {
            (u - 65 + 10) as u128
        } else {
            assert(whole[i - from] == c);
            assert(!is_hex_digit(c));
            return None;
        };
        assert(is_hex_digit(c) && hex_val(c) == d);
        proof {
            let p = whole.take(i - from + 1);
            assert(p.drop_last() =~= whole.take(i - from));
            assert(p.last() == c);
            lemma_hexs_val_bound(p, 32);
            lemma_pow16_32_fits();
        }
        acc = acc * 16 + d;
        proof {
            let p = whole.take(i - from + 1);
            assert(forall|j: int| 0 <= j < p.len() ==> is_hex_digit(#[trigger] p[j]));
        }
        i = i + 1;
    }
    proof {
        assert(whole.take(to - from) =~= whole);
    }
    Some(acc)
}

} // verus!
