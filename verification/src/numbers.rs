//! Numbers as text: decimal, padding and parsing.

use vstd::prelude::*;

use crate::text;

verus! {

/// The decimal digit `d`.
pub open spec fn digit_char(d: nat) -> char {
    (d + 48) as char
}

/// `n` in decimal, without leading zeros.
pub open spec fn decimal(n: nat) -> Seq<char>
    decreases n,
{
    if n < 10 {
        seq![digit_char(n)]
    } else {
        decimal(n / 10).push(digit_char(n % 10))
    }
}

/// Writes `n` in decimal.
pub fn decimal_of(n: u64) -> (r: Vec<char>)
    ensures
        r@ == decimal(n as nat),
    decreases n,
{
    let digit = ((n % 10) as u8 + 48) as char;
    let mut out: Vec<char> = if n < 10 {
        Vec::new()
    } else {
        decimal_of(n / 10)
    };
    out.push(digit);
    assert(n < 10 ==> out@ =~= seq![digit]);
    out
}

/// Writes `n` in decimal.
pub fn decimal_string(n: u64) -> (r: String)
    ensures
        r@ == decimal(n as nat),
{
    let digits = decimal_of(n);
    text::string_of(&digits)
}

/// `s` filled with `fill` on the left up to `width` characters.
pub open spec fn padded(s: Seq<char>, width: nat, fill: char) -> Seq<char> {
    if s.len() >= width {
        s
    } else {
        Seq::new((width - s.len()) as nat, |i: int| fill) + s
    }
}

/// Fills `v` with `fill` on the left up to `width` characters.
pub fn pad_left(v: &Vec<char>, width: usize, fill: char) -> (r: Vec<char>)
    ensures
        r@ == padded(v@, width as nat, fill),
{
    let mut out: Vec<char> = Vec::new();
    if v.len() < width {
        let missing: usize = width - v.len();
        while out.len() < missing
            invariant
                out.len() <= missing,
                out@ == Seq::new(out@.len(), |i: int| fill),
            decreases missing - out.len(),
        {
            out.push(fill);
        }
    }
    text::extend(&mut out, v);
    assert(v@.len() >= width ==> out@ =~= v@);
    out
}

/// Whether `c` is a decimal digit.
pub open spec fn is_digit(c: char) -> bool {
    '0' <= c <= '9'
}

/// The value of the digit `c`.
pub open spec fn digit_value(c: char) -> nat {
    if is_digit(c) {
        (c as u32 - 48) as nat
    } else {
        0
    }
}

/// Whether `s` is one or more decimal digits.
pub open spec fn is_number(s: Seq<char>) -> bool {
    s.len() > 0 && forall|i: int| 0 <= i < s.len() ==> is_digit(#[trigger] s[i])
}

/// The number that the digits `s` write.
pub open spec fn number_value(s: Seq<char>) -> nat
    decreases s.len(),
{
    if s.len() == 0 {
        0
    } else {
        number_value(s.drop_last()) * 10 + digit_value(s.last())
    }
}

/// More digits never make a smaller number.
pub proof fn lemma_number_grows(s: Seq<char>, k: int)
    requires
        0 <= k <= s.len(),
    ensures
        number_value(s.take(k)) <= number_value(s),
    decreases s.len() - k,
{
    if k == s.len() {
        assert(s.take(k) =~= s);
    } else {
        lemma_number_grows(s, k + 1);
        assert(s.take(k + 1).drop_last() =~= s.take(k));
    }
}

/// The decimal form of a number is a number with that value.
pub proof fn lemma_decimal_value(n: nat)
    ensures
        is_number(decimal(n)),
        number_value(decimal(n)) == n,
    decreases n,
{
    if n < 10 {
        let s = decimal(n);
        assert(s.drop_last() =~= Seq::empty());
        assert(number_value(s) == number_value(s.drop_last()) * 10 + digit_value(s.last()));
    } else {
        lemma_decimal_value(n / 10);
        let s = decimal(n);
        assert(s.drop_last() =~= decimal(n / 10));
        assert(is_number(s)) by {
            assert forall|i: int| 0 <= i < s.len() implies is_digit(#[trigger] s[i]) by {
                if i < s.len() - 1 {
                    assert(s[i] == decimal(n / 10)[i]);
                }
            }
        }
    }
}

/// Reads the digits of `v` from position `from`; `None` when they are not all
/// digits, when there are none, or when the number exceeds 64 bits.
fn read_digits(v: &Vec<char>, from: usize) -> (r: Option<u64>)
    requires
        from <= v.len(),
    ensures
        r is Some <==> is_number(v@.skip(from as int)) && number_value(v@.skip(from as int))
            <= u64::MAX,
        r matches Some(n) ==> n == number_value(v@.skip(from as int)),
{
    let ghost s = v@.skip(from as int);
    if from == v.len() {
        return None;
    }
    let mut n: u64 = 0;
    let mut i: usize = from;
    while i < v.len()
        invariant
            from <= i <= v.len(),
            s == v@.skip(from as int),
            n == number_value(s.take(i - from)),
            forall|j: int| 0 <= j < i - from ==> is_digit(#[trigger] s[j]),
        decreases v.len() - i,
    {
        let c = v[i];
        assert(c == s[i - from]);
        if !('0' <= c && c <= '9') {
            return None;
        }
        let d: u64 = (c as u32 - 48) as u64;
        proof {
            assert(s.take(i - from + 1).drop_last() =~= s.take(i - from));
            lemma_number_grows(s, i - from + 1);
        }
        if n > (u64::MAX - d) / 10 {
            return None;
        }
        n = n * 10 + d;
        i = i + 1;
    }
    assert(s.take(i - from) =~= s);
    Some(n)
}

/// `s` without one leading `c`.
pub open spec fn without_sign(s: Seq<char>, c: char) -> Seq<char> {
    if s.len() > 0 && s[0] == c {
        s.drop_first()
    } else {
        s
    }
}

/// The unsigned number up to `max` that `s` writes: digits, after an optional `+`.
pub open spec fn unsigned_number(s: Seq<char>, max: nat) -> Option<nat> {
    let digits = without_sign(s, '+');
    if is_number(digits) && number_value(digits) <= max {
        Some(number_value(digits))
    } else {
        None
    }
}

/// The 64-bit signed number that `s` writes: digits, after an optional `+` or `-`.
pub open spec fn signed_number(s: Seq<char>) -> Option<int> {
    if s.len() > 0 && s[0] == '-' {
        let digits = s.drop_first();
        if is_number(digits) && -(number_value(digits) as int) >= i64::MIN {
            Some(-(number_value(digits) as int))
        } else {
            None
        }
    } else {
        let digits = without_sign(s, '+');
        if is_number(digits) && number_value(digits) <= i64::MAX {
            Some(number_value(digits) as int)
        } else {
            None
        }
    }
}

/// Reads an unsigned number up to `max`.
pub fn parse_unsigned(v: &Vec<char>, max: u64) -> (r: Option<u64>)
    ensures
        match r {
            Some(n) => unsigned_number(v@, max as nat) == Some(n as nat),
            None => unsigned_number(v@, max as nat) is None,
        },
{
    let from: usize = if v.len() > 0 && v[0] == '+' {
        1
    } else {
        0
    };
    assert(v@.skip(from as int) =~= without_sign(v@, '+'));
    match read_digits(v, from) {
        Some(n) => if n <= max {
            Some(n)
        } else {
            None
        },
        None => None,
    }
}

/// Reads a 64-bit signed number.
pub fn parse_signed(v: &Vec<char>) -> (r: Option<i64>)
    ensures
        match r {
            Some(n) => signed_number(v@) == Some(n as int),
            None => signed_number(v@) is None,
        },
{
    if v.len() > 0 && v[0] == '-' {
        assert(v@.skip(1) =~= v@.drop_first());
        match read_digits(v, 1) {
            Some(n) => if n <= 0x7fff_ffff_ffff_ffff {
                Some(-(n as i64))
            } else if n == 0x8000_0000_0000_0000 {
                Some(i64::MIN)
            } else {
                None
            },
            None => None,
        }
    } else {
        let from: usize = if v.len() > 0 && v[0] == '+' {
            1
        } else {
            0
        };
        assert(v@.skip(from as int) =~= without_sign(v@, '+'));
        match read_digits(v, from) {
            Some(n) => if n <= 0x7fff_ffff_ffff_ffff {
                Some(n as i64)
            } else {
                None
            },
            None => None,
        }
    }
}

/// The decimal form of a number is made of digits.
pub proof fn lemma_decimal_digits(n: nat)
    ensures
        decimal(n).len() > 0,
        forall|i: int| 0 <= i < decimal(n).len() ==> is_digit(#[trigger] decimal(n)[i]),
{
    lemma_decimal_value(n);
}

/// The decimal form of a number is read as a signed number too, unless it is too
/// large.
pub proof fn lemma_decimal_is_signed_number(n: nat)
    ensures
        signed_number(decimal(n)) == if n <= i64::MAX {
            Some(n as int)
        } else {
            None
        },
{
    lemma_decimal_value(n);
    assert(is_digit(decimal(n)[0]));
}

/// A number that is written in decimal is read back, unless it is too large.
pub proof fn law_decimal_reads_back(n: nat, max: nat)
    ensures
        unsigned_number(decimal(n), max) == if n <= max {
            Some(n)
        } else {
            None
        },
{
    lemma_decimal_value(n);
    assert(is_digit(decimal(n)[0]));
}

/// A sign in front of a number is read: a plus changes nothing, and a minus makes it
/// negative where that is allowed, down to the least 64-bit number.
pub proof fn law_signs_are_read(n: nat, max: nat)
    ensures
        unsigned_number(seq!['+'] + decimal(n), max) == unsigned_number(decimal(n), max),
        unsigned_number(seq!['-'] + decimal(n), max) is None,
        signed_number(seq!['+'] + decimal(n)) == signed_number(decimal(n)),
        signed_number(seq!['-'] + decimal(n)) == if n <= 0x8000_0000_0000_0000 {
            Some(-n)
        } else {
            None
        },
{
    lemma_decimal_value(n);
    let plus = seq!['+'] + decimal(n);
    let minus = seq!['-'] + decimal(n);
    assert(is_digit(decimal(n)[0]));
    assert(plus.drop_first() =~= decimal(n));
    assert(minus.drop_first() =~= decimal(n));
    assert(!is_digit(minus[0]));
}

} // verus!
