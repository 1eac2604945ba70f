//! Whole numbers as text: reading them with an optional sign, and writing them in decimal.

use vstd::prelude::*;

use crate::text::{is_space, starts_with_char, tail};

verus! {

/// The value of `c` as a digit to the given base (at most 16), where it is one.
pub open spec fn digit(c: char, base: nat) -> Option<nat> {
    let n = c as nat;
    let v: nat = if 48 <= n <= 57 {
        (n - 48) as nat
    } else if 65 <= n <= 70 {
        (n - 55) as nat
    } else if 97 <= n <= 102 {
        (n - 87) as nat
    } else {
        16
    };
    if v < base && v < 16 {
        Some(v)
    } else {
        None
    }
}

/// `c` is one of the ten ASCII digits.
pub open spec fn is_digit(c: char) -> bool {
    48 <= c as nat <= 57
}

/// The number whose digits to the given base are the characters of `s`.
pub open spec fn digits(s: Seq<char>, base: nat) -> Option<nat>
    decreases s.len(),
{
    if s.len() == 0 {
        Some(0)
    } else {
        match (digits(s.drop_last(), base), digit(s.last(), base)) {
            (Some(v), Some(d)) => Some(v * base + d),
            _ => None,
        }
    }
}

/// The number that `s` spells: at least one digit, after an optional plus sign.
pub open spec fn natural(s: Seq<char>, base: nat) -> Option<nat> {
    let t = if starts_with_char(s, '+') {
        s.drop_first()
    } else {
        s
    };
    if t.len() == 0 {
        None
    } else {
        digits(t, base)
    }
}

/// The number that `s` spells in decimal: at least one digit, after an optional sign.
pub open spec fn whole(s: Seq<char>) -> Option<int> {
    if starts_with_char(s, '-') {
        let t = s.drop_first();
        if t.len() == 0 {
            None
        } else {
            match digits(t, 10) {
                Some(v) => Some(-(v as int)),
                None => None,
            }
        }
    } else {
        match natural(s, 10) {
            Some(v) => Some(v as int),
            None => None,
        }
    }
}

/// The `usize` that `s` spells in decimal.
pub open spec fn usize_of(s: Seq<char>) -> Option<usize> {
    match natural(s, 10) {
        Some(v) => if v <= usize::MAX {
            Some(v as usize)
        } else {
            None
        },
        None => None,
    }
}

/// The `u64` that `s` spells in hexadecimal.
pub open spec fn hex_of(s: Seq<char>) -> Option<u64> {
    match natural(s, 16) {
        Some(v) => if v <= u64::MAX {
            Some(v as u64)
        } else {
            None
        },
        None => None,
    }
}

/// The `i64` that `s` spells in decimal.
pub open spec fn i64_of(s: Seq<char>) -> Option<i64> {
    match whole(s) {
        Some(v) => if i64::MIN <= v <= i64::MAX {
            Some(v as i64)
        } else {
            None
        },
        None => None,
    }
}

/// The `i32` that `s` spells in decimal.
pub open spec fn i32_of(s: Seq<char>) -> Option<i32> {
    match whole(s) {
        Some(v) => if i32::MIN <= v <= i32::MAX {
            Some(v as i32)
        } else {
            None
        },
        None => None,
    }
}

/// The decimal digit with the value `d`.
pub open spec fn digit_char(d: nat) -> char {
    ((48 + d) as u8) as char
}

/// `n` in decimal, without leading zeros.
pub open spec fn decimal(n: nat) -> Seq<char>
    decreases n,
{
    if n < 10 {
        seq![digit_char(n)]
    } else {
        decimal(n / 10).push(digit_char(n % 10))
    }
}

/// `n` in decimal, with a minus sign where it is negative.
pub open spec fn show(n: int) -> Seq<char> {
    if n < 0 {
        seq!['-'] + decimal((-n) as nat)
    } else {
        decimal(n as nat)
    }
}

/// A longer run of digits spells no smaller number.
proof fn lemma_digits_grow(s: Seq<char>, base: nat, i: int)
    requires
        0 <= i <= s.len(),
        base >= 1,
    ensures
        digits(s, base) is Some ==> digits(s.take(i), base) is Some && digits(s.take(i), base)->0
            <= digits(s, base)->0,
    decreases s.len() - i,
{
    if i == s.len() {
        assert(s.take(i) =~= s);
    } else {
        lemma_digits_grow(s, base, i + 1);
        assert(s.take(i + 1).drop_last() =~= s.take(i));
        if digits(s, base) is Some {
            let v = digits(s.take(i), base)->0;
            assert(v * base >= v) by (nonlinear_arith)
                requires
                    base >= 1,
                    v >= 0,
            ;
        }
    }
}

/// A decimal number is made of digits, and read back it is the same number.
pub proof fn lemma_decimal_reads_back(n: nat)
    ensures
        digits(decimal(n), 10) == Some(n),
        decimal(n).len() > 0,
        forall|i: int| 0 <= i < decimal(n).len() ==> is_digit(#[trigger] decimal(n)[i]),
    decreases n,
{
    if n < 10 {
        assert(decimal(n).drop_last() =~= seq![]);
        assert(digits(decimal(n).drop_last(), 10) == Some(0nat));
    } else {
        lemma_decimal_reads_back(n / 10);
        assert(decimal(n).drop_last() =~= decimal(n / 10));
        assert forall|i: int| 0 <= i < decimal(n).len() implies is_digit(
            #[trigger] decimal(n)[i],
        ) by {
            if i < decimal(n).len() - 1 {
                assert(decimal(n)[i] == decimal(n / 10)[i]);
            }
        }
    }
}

/// Reading back what `show` writes gives the number.
pub proof fn lemma_show_reads_back(n: int)
    ensures
        whole(show(n)) == Some(n),
        show(n).len() > 0,
{
    if n < 0 {
        lemma_decimal_reads_back((-n) as nat);
        assert(show(n).drop_first() =~= decimal((-n) as nat));
    } else {
        lemma_decimal_reads_back(n as nat);
        assert(is_digit(decimal(n as nat)[0]));
    }
}

/// What a character counts as a digit: `0` to `9` count zero to nine, `A` to `F` and `a` to `f` ten
/// to fifteen where the base is sixteen, and no other character counts.
pub proof fn lemma_digit_values(c: char)
    ensures
        digit(c, 10) == if '0' as u32 <= c as u32 <= '9' as u32 {
            Some((c as u32 - '0' as u32) as nat)
        } else {
            None
        },
        digit(c, 16) == if '0' as u32 <= c as u32 <= '9' as u32 {
            Some((c as u32 - '0' as u32) as nat)
        } else if 'A' as u32 <= c as u32 <= 'F' as u32 {
            Some((10 + (c as u32 - 'A' as u32)) as nat)
        } else if 'a' as u32 <= c as u32 <= 'f' as u32 {
            Some((10 + (c as u32 - 'a' as u32)) as nat)
        } else {
            None
        },
        is_digit(c) <==> digit(c, 10) is Some,
{
}

/// No digit is white space or punctuation.
pub(crate) proof fn lemma_digit_is_ink(c: char)
    ensures
        is_digit(c) || digit(c, 16) is Some ==> {
            &&& !is_space(c)
            &&& c != '='
            &&& c != ','
            &&& c != '('
            &&& c != ')'
            &&& c != ' '
            &&& c != '.'
            &&& c != '-'
            &&& c != '+'
            &&& c != 'x'
            &&& c != '['
            &&& c != ']'
            &&& c != '\''
            &&& c != ':'
            &&& c != '|'
            &&& c != ';'
        },
        c == '-' || c == '(' || c == ')' || c == '[' || c == ']' || c == '=' ==> !is_space(c),
{
}

/// Digits count from the right: one more digit makes the base as many of the number before it.
pub proof fn lemma_digits_count(s: Seq<char>, c: char, base: nat)
    ensures
        digits(Seq::<char>::empty(), base) == Some(0nat),
        digits(s.push(c), base) is Some <==> digits(s, base) is Some && digit(c, base) is Some,
        digits(s.push(c), base) is Some ==> digits(s.push(c), base)->0 == digits(s, base)->0 * base
            + digit(c, base)->0,
{
    assert(s.push(c).drop_last() =~= s);
}

/// Decimal text: a number below ten is the character for it, and ten times a number and a digit
/// more is the text of the number with the digit behind it.
pub proof fn lemma_decimal_grows(n: nat, d: nat)
    requires
        d < 10,
    ensures
        decimal(d) == seq![((48 + d) as u8) as char],
        n > 0 ==> decimal(10 * n + d) == decimal(n).push(((48 + d) as u8) as char),
{
    assert((10 * n + d) / 10 == n);
    assert((10 * n + d) % 10 == d);
}

/// Two numbers with the same decimal text are the same.
pub proof fn lemma_decimal_tells_apart(a: nat, b: nat)
    requires
        decimal(a) == decimal(b),
    ensures
        a == b,
{
    lemma_decimal_reads_back(a);
    lemma_decimal_reads_back(b);
}

/// Whole numbers are read as they are written, with a minus sign where they are negative, as far
/// as they are in range.
pub proof fn lemma_numbers_read_back(n: int)
    ensures
        i64_of(show(n)) == if -0x8000_0000_0000_0000 <= n <= 0x7fff_ffff_ffff_ffff {
            Some(n as i64)
        } else {
            None
        },
        i32_of(show(n)) == if -0x8000_0000 <= n <= 0x7fff_ffff {
            Some(n as i32)
        } else {
            None
        },
        n >= 0 ==> usize_of(show(n)) == if n <= usize::MAX {
            Some(n as usize)
        } else {
            None
        },
        n >= 0 ==> show(n) == decimal(n as nat),
        n < 0 ==> show(n) == seq!['-'] + decimal((-n) as nat),
{
    lemma_show_reads_back(n);
    if n >= 0 {
        lemma_decimal_reads_back(n as nat);
        assert(is_digit(decimal(n as nat)[0]));
    }
}

/// What is read as a number is made of digits, behind a sign where there is one, and at least one
/// digit; a plus sign changes nothing.
pub proof fn lemma_only_numbers_are_read(s: Seq<char>)
    ensures
        i64_of(s) is Some ==> s.len() > 0 && forall|i: int|
            1 <= i < s.len() ==> is_digit(#[trigger] s[i]),
        i64_of(s) is Some ==> is_digit(s[0]) || ((s[0] == '-' || s[0] == '+') && s.len() > 1),
        usize_of(s) is Some ==> s.len() > 0 && forall|i: int|
            1 <= i < s.len() ==> is_digit(#[trigger] s[i]),
        usize_of(s) is Some ==> is_digit(s[0]) || (s[0] == '+' && s.len() > 1),
        s.len() > 0 && is_digit(s[0]) ==> i64_of(seq!['+'] + s) == i64_of(s) && usize_of(
            seq!['+'] + s,
        ) == usize_of(s),
{
    lemma_digits_are_digits(s);
    if s.len() > 0 {
        let t = s.drop_first();
        lemma_digits_are_digits(t);
        assert forall|i: int| 1 <= i < s.len() && digits(t, 10) is Some implies is_digit(
            #[trigger] s[i],
        ) by {
            assert(t[i - 1] == s[i]);
        }
    }
    assert((seq!['+'] + s).drop_first() =~= s);
}

/// A run of decimal digits holds digits only.
proof fn lemma_digits_are_digits(s: Seq<char>)
    ensures
        digits(s, 10) is Some ==> forall|i: int| 0 <= i < s.len() ==> is_digit(#[trigger] s[i]),
    decreases s.len(),
{
    if s.len() > 0 {
        lemma_digits_are_digits(s.drop_last());
        assert forall|i: int| 0 <= i < s.len() && digits(s, 10) is Some implies is_digit(
            #[trigger] s[i],
        ) by {
            if i < s.len() - 1 {
                assert(s.drop_last()[i] == s[i]);
            }
        }
    }
}

/// Hexadecimal digits are read as the number they count, where it has 64 bits at most.
pub proof fn lemma_hexadecimal_reads(s: Seq<char>)
    ensures
        s.len() > 0 && digit(s[0], 16) is Some ==> hex_of(s) == match digits(s, 16) {
            Some(v) => if v <= 0xffff_ffff_ffff_ffff {
                Some(v as u64)
            } else {
                None
            },
            None => None,
        },
        s.len() == 0 ==> hex_of(s) is None,
{
}

/// Tells whether `c` is one of the ten ASCII digits.
pub fn char_is_digit(c: char) -> (r: bool)
    ensures
        r == is_digit(c),
{
    let n: u32 = c as u32;
    48 <= n && n <= 57
}

/// The value of `c` as a digit to the given base.
fn digit_value(c: char, base: u32) -> (r: Option<u32>)
    requires
        base <= 16,
    ensures
        match r {
            Some(d) => digit(c, base as nat) == Some(d as nat) && d < base,
            None => digit(c, base as nat) is None,
        },
{
    let n: u32 = c as u32;
    let v: u32 = if 48 <= n && n <= 57 {
        n - 48
    } else if 65 <= n && n <= 70 {
        n - 55
    } else if 97 <= n && n <= 102 {
        n - 87
    } else {
        16
    };
    if v < base {
        Some(v)
    } else {
        None
    }
}

/// The number whose digits are the characters of `s`, where it is at most `limit`.
fn read_digits(s: &[char], base: u32, limit: u64) -> (r: Option<u64>)
    requires
        2 <= base <= 16,
    ensures
        match r {
            Some(v) => digits(s@, base as nat) == Some(v as nat) && v <= limit,
            None => digits(s@, base as nat) matches Some(v) ==> v > limit,
        },
{
    let mut acc: u64 = 0;
    proof {
        assert(s@.take(0) =~= seq![]);
    }
    for i in 0..s.len()
        invariant
            2 <= base <= 16,
            acc <= limit,
            digits(s@.take(i as int), base as nat) == Some(acc as nat),
    {
        proof {
            assert(s@.take(i + 1).drop_last() =~= s@.take(i as int));
            lemma_digits_grow(s@, base as nat, i + 1);
        }
        match digit_value(s[i], base) {
            Some(d) => {
                assert(acc * base <= u64::MAX * 16) by (nonlinear_arith)
                    requires
                        acc <= u64::MAX,
                        base <= 16,
                ;
                let next: u128 = acc as u128 * base as u128 + d as u128;
                if next > limit as u128 {
                    return None;
                }
                acc = next as u64;
            },
            None => {
                return None;
            },
        }
    }
    proof {
        assert(s@.take(s@.len() as int) =~= s@);
    }
    Some(acc)
}

/// The number that `s` spells, where it is at most `limit`.
fn read_natural(s: &[char], base: u32, limit: u64) -> (r: Option<u64>)
    requires
        2 <= base <= 16,
    ensures
        match r {
            Some(v) => natural(s@, base as nat) == Some(v as nat) && v <= limit,
            None => natural(s@, base as nat) matches Some(v) ==> v > limit,
        },
{
    let t = if s.len() > 0 && s[0] == '+' {
        let t = tail(s, 1);
        assert(t@ =~= s@.drop_first());
        t
    } else {
        s
    };
    if t.len() == 0 {
        None
    } else {
        read_digits(t, base, limit)
    }
}

/// The `usize` that `s` spells in decimal.
pub fn read_usize(s: &[char]) -> (r: Option<usize>)
    ensures
        r == usize_of(s@),
{
    match read_natural(s, 10, usize::MAX as u64) {
        Some(v) => Some(v as usize),
        None => None,
    }
}

/// The `u64` that `s` spells in hexadecimal.
pub fn read_hex(s: &[char]) -> (r: Option<u64>)
    ensures
        r == hex_of(s@),
{
    read_natural(s, 16, u64::MAX)
}

/// The `i64` that `s` spells in decimal.
pub fn read_i64(s: &[char]) -> (r: Option<i64>)
    ensures
        r == i64_of(s@),
{
    if s.len() > 0 && s[0] == '-' {
        let t = tail(s, 1);
        assert(t@ =~= s@.drop_first());
        if t.len() == 0 {
            return None;
        }
        match read_digits(t, 10, 9223372036854775808) {
            Some(v) => {
                let n: i128 = 0 - v as i128;
                Some(n as i64)
            },
            None => None,
        }
    } else {
        match read_natural(s, 10, i64::MAX as u64) {
            Some(v) => Some(v as i64),
            None => None,
        }
    }
}

/// The `i32` that `s` spells in decimal.
pub fn read_i32(s: &[char]) -> (r: Option<i32>)
    ensures
        r == i32_of(s@),
{
    match read_i64(s) {
        Some(v) => if -2147483648 <= v && v <= 2147483647 {
            Some(v as i32)
        } else {
            None
        },
        None => None,
    }
}

/// Writes `n` in decimal at the end of `out`.
pub fn push_decimal(out: &mut String, n: u64)
    ensures
        final(out)@ == old(out)@ + decimal(n as nat),
    decreases n,
{
    if n >= 10 {
        push_decimal(out, n / 10);
    }
    let d: u8 = (n % 10) as u8;
    out.push((48 + d) as char);
    assert(out@ =~= old(out)@ + decimal(n as nat));
}

/// Writes `n` in decimal, with its sign, at the end of `out`.
pub fn push_signed(out: &mut String, n: i64)
    ensures
        final(out)@ == old(out)@ + show(n as int),
{
    if n < 0 {
        out.push('-');
        let m: i128 = 0 - n as i128;
        push_decimal(out, m as u64);
        assert(out@ =~= old(out)@ + show(n as int));
    } else {
        push_decimal(out, n as u64);
    }
}

/// `n` in decimal.
pub fn show_i64(n: i64) -> (r: String)
    ensures
        r@ == show(n as int),
{
    let mut out: String = String::new();
    push_signed(&mut out, n);
    assert(out@ =~= show(n as int));
    out
}

} // verus!
