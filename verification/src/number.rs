//! Numbers as text: parsing and printing in a radix up to sixteen.

use vstd::prelude::*;
use crate::text::chars_of;

verus! {

/// The value of a digit; 16 for a character that is none.
pub open spec fn digit_value(c: char) -> nat {
    if '0' <= c && c <= '9' {
        (c as u32 - '0' as u32) as nat
    } else if 'a' <= c && c <= 'f' {
        (c as u32 - 'a' as u32 + 10) as nat
    } else if 'A' <= c && c <= 'F' {
        (c as u32 - 'A' as u32 + 10) as nat
    } else {
        16
    }
}

/// A non-empty run of digits.
pub open spec fn is_numeral(s: Seq<char>, radix: nat) -> bool {
    s.len() > 0 && forall|i: int| 0 <= i < s.len() ==> digit_value(#[trigger] s[i]) < radix
}

/// What a run of digits denotes.
pub open spec fn numeral_value(s: Seq<char>, radix: nat) -> nat
    decreases s.len(),
{
    if s.len() == 0 {
        0
    } else {
        numeral_value(s.drop_last(), radix) * radix + digit_value(s.last())
    }
}

/// The digits of a number, without what stands for its sign.
pub open spec fn unsigned_part(s: Seq<char>) -> Seq<char> {
    if s.len() > 0 && s[0] == '+' {
        s.skip(1)
    } else {
        s
    }
}

/// The 32-bit number that a text denotes: an optional plus sign, then digits.
pub open spec fn parsed(s: Seq<char>, radix: nat) -> Option<u32> {
    let digits = unsigned_part(s);
    if is_numeral(digits, radix) && numeral_value(digits, radix) <= u32::MAX {
        Some(numeral_value(digits, radix) as u32)
    } else {
        None
    }
}

/// The digit of a value below sixteen, in upper case.
pub open spec fn digit(d: nat) -> char {
    if d < 10 {
        (d + 48) as char
    } else {
        (d + 55) as char
    }
}

/// The digits of `n`, without leading zeros.
pub open spec fn numeral(n: nat, radix: nat) -> Seq<char>
    decreases n,
{
    if radix < 2 || n < radix {
        seq![digit(n)]
    } else {
        proof {
            assert(n / radix < n) by (nonlinear_arith)
                requires
                    n >= radix,
                    radix >= 2,
            ;
        }
        numeral(n / radix, radix).push(digit(n % radix))
    }
}

/// The decimal digits of `n`.
pub open spec fn decimal(n: nat) -> Seq<char> {
    numeral(n, 10)
}

/// `s` with zeros in front of it up to `width` characters.
pub open spec fn zero_padded(s: Seq<char>, width: nat) -> Seq<char> {
    if s.len() < width {
        Seq::new((width - s.len()) as nat, |i: int| '0') + s
    } else {
        s
    }
}

proof fn lemma_value_of_prefix(s: Seq<char>, radix: nat, i: int)
    requires
        0 <= i <= s.len(),
        radix > 0,
    ensures
        numeral_value(s.take(i), radix) <= numeral_value(s, radix),
    decreases s.len() - i,
{
    if i == s.len() {
        assert(s.take(i) =~= s);
    } else {
        lemma_value_of_prefix(s, radix, i + 1);
        assert(s.take(i + 1).drop_last() =~= s.take(i));
        let v = numeral_value(s.take(i), radix);
        assert(v <= v * radix) by (nonlinear_arith)
            requires
                radix > 0,
        ;
    }
}

fn value_of_digit(c: char) -> (r: u32)
    ensures
        r == digit_value(c),
        r <= 16,
{
    if '0' <= c && c <= '9' {
        c as u32 - '0' as u32
    } else if 'a' <= c && c <= 'f' {
        c as u32 - 'a' as u32 + 10
    } else if 'A' <= c && c <= 'F' {
        c as u32 - 'A' as u32 + 10
    } else {
        16
    }
}

/// Parses an optional plus sign and digits; `None` for anything else and for
/// a number that does not fit.
pub fn parse_number(s: &str, radix: u32) -> (r: Option<u32>)
    requires
        2 <= radix <= 16,
    ensures
        r == parsed(s@, radix as nat),
{
    let cs = chars_of(s);
    let start: usize = if cs.len() > 0 && cs[0] == '+' {
        1
    } else {
        0
    };
    let ghost digits = unsigned_part(s@);
    assert(digits =~= cs@.skip(start as int));
    if start == cs.len() {
        return None;
    }
    let mut value: u64 = 0;
    let mut i = start;
    while i < cs.len()
        invariant
            2 <= radix <= 16,
            cs@ == s@,
            start <= i <= cs@.len(),
            start < cs@.len(),
            digits == unsigned_part(s@),
            digits == cs@.skip(start as int),
            value == numeral_value(digits.take(i - start), radix as nat),
            value <= u32::MAX,
            forall|k: int| 0 <= k < i - start ==> digit_value(#[trigger] digits[k]) < radix,
        decreases cs@.len() - i,
    {
        let d = value_of_digit(cs[i]);
        assert(digits[i - start] == cs@[i as int]);
        if d >= radix {
            return None;
        }
        let ghost k = i - start;
        proof {
            assert(digits.take(k + 1).drop_last() =~= digits.take(k));
            assert(digits.take(k + 1).last() == digits[k]);
            lemma_value_of_prefix(digits, radix as nat, k + 1);
            assert(value * radix <= u32::MAX * 16) by (nonlinear_arith)
                requires
                    value <= u32::MAX,
                    radix <= 16,
            ;
        }
        value = value * radix as u64 + d as u64;
        if value > u32::MAX as u64 {
            return None;
        }
        i = i + 1;
    }
    assert(digits.take(digits.len() as int) =~= digits);
    Some(value as u32)
}

fn digit_of(d: u32) -> (c: char)
    requires
        d < 16,
    ensures
        c == digit(d as nat),
{
    match d {
        0 => '0',
        1 => '1',
        2 => '2',
        3 => '3',
        4 => '4',
        5 => '5',
        6 => '6',
        7 => '7',
        8 => '8',
        9 => '9',
        10 => 'A',
        11 => 'B',
        12 => 'C',
        13 => 'D',
        14 => 'E',
        _ => 'F',
    }
}

/// Appends the digits of `n`.
pub fn push_numeral(out: &mut String, n: u64, radix: u64)
    requires
        2 <= radix <= 16,
    ensures
        final(out)@ == old(out)@ + numeral(n as nat, radix as nat),
    decreases n,
{
    if n < radix {
        out.push(digit_of(n as u32));
        assert(out@ =~= old(out)@ + numeral(n as nat, radix as nat));
    } else {
        proof {
            assert(n / radix < n) by (nonlinear_arith)
                requires
                    n >= radix,
                    radix >= 2,
            ;
            assert(n % radix < radix) by (nonlinear_arith)
                requires
                    radix >= 2,
            ;
        }
        push_numeral(out, n / radix, radix);
        out.push(digit_of((n % radix) as u32));
        assert(out@ =~= old(out)@ + numeral(n as nat, radix as nat));
    }
}

/// Appends the digits of `n`, with zeros in front up to `width` characters.
pub fn push_padded(out: &mut String, n: u64, radix: u64, width: usize)
    requires
        2 <= radix <= 16,
    ensures
        final(out)@ == old(out)@ + zero_padded(numeral(n as nat, radix as nat), width as nat),
{
    let mut digits = String::new();
    push_numeral(&mut digits, n, radix);
    assert(digits@ =~= numeral(n as nat, radix as nat));
    let cs = chars_of(&digits);
    let mut have = cs.len();
    let ghost start = out@;
    let ghost zeros: Seq<char> = Seq::empty();
    while have < width
        invariant
            cs@ == numeral(n as nat, radix as nat),
            cs@.len() <= have,
            have <= width || have == cs@.len(),
            out@ == start + Seq::new((have - cs@.len()) as nat, |i: int| '0'),
        decreases width - have,
    {
        out.push('0');
        assert(out@ =~= start + Seq::new((have + 1 - cs@.len()) as nat, |i: int| '0'));
        have = have + 1;
    }
    out.append(&digits);
    assert(out@ =~= start + zero_padded(numeral(n as nat, radix as nat), width as nat));
}

proof fn lemma_digit_value(d: nat)
    requires
        d < 16,
    ensures
        digit_value(digit(d)) == d,
{
}

/// Printing a number and reading its digits gives the number back.
pub proof fn law_numeral_round_trip(n: nat, radix: nat)
    requires
        2 <= radix <= 16,
    ensures
        is_numeral(numeral(n, radix), radix),
        numeral_value(numeral(n, radix), radix) == n,
        n <= u32::MAX ==> parsed(numeral(n, radix), radix) == Some(n as u32),
    decreases n,
{
    let s = numeral(n, radix);
    if n < radix {
        lemma_digit_value(n);
        assert(s.drop_last() =~= Seq::<char>::empty());
        assert(numeral_value(s.drop_last(), radix) == 0);
        assert(0 * radix == 0) by (nonlinear_arith);
    } else {
        assert(n / radix < n) by (nonlinear_arith)
            requires
                n >= radix,
                radix >= 2,
        ;
        assert(n % radix < radix && n == (n / radix) * radix + n % radix) by (nonlinear_arith)
            requires
                radix >= 2,
        ;
        law_numeral_round_trip(n / radix, radix);
        lemma_digit_value(n % radix);
        assert(s.drop_last() =~= numeral(n / radix, radix));
    }
    assert(digit_value('+') == 16);
    assert(digit_value(s[0]) < radix);
    assert(unsigned_part(s) == s);
}

/// Zeros in front of digits do not change what they denote.
pub proof fn law_padding_keeps_value(n: nat, radix: nat, width: nat)
    requires
        2 <= radix <= 16,
    ensures
        is_numeral(zero_padded(numeral(n, radix), width), radix),
        numeral_value(zero_padded(numeral(n, radix), width), radix) == n,
        n <= u32::MAX ==> parsed(zero_padded(numeral(n, radix), width), radix) == Some(n as u32),
{
    law_numeral_round_trip(n, radix);
    let s = numeral(n, radix);
    let padded = zero_padded(s, width);
    if s.len() < width {
        let k = (width - s.len()) as nat;
        lemma_leading_zeros(s, radix, k);
        assert forall|i: int| 0 <= i < padded.len() implies digit_value(#[trigger] padded[i])
            < radix by {
            if i >= k {
                assert(padded[i] == s[i - k]);
            }
        }
    }
    assert(digit_value('+') == 16);
    assert(digit_value(padded[0]) < radix);
    assert(unsigned_part(padded) == padded);
}

proof fn lemma_leading_zeros(s: Seq<char>, radix: nat, k: nat)
    ensures
        numeral_value(Seq::new(k, |i: int| '0') + s, radix) == numeral_value(s, radix),
    decreases s.len() + k,
{
    let z = Seq::new(k, |i: int| '0');
    let all = z + s;
    if s.len() > 0 {
        lemma_leading_zeros(s.drop_last(), radix, k);
        assert(all.drop_last() =~= z + s.drop_last());
    } else if k > 0 {
        lemma_leading_zeros(s, radix, (k - 1) as nat);
        assert(all.drop_last() =~= Seq::new((k - 1) as nat, |i: int| '0') + s);
        assert(0 * radix == 0) by (nonlinear_arith);
    } else {
        assert(all =~= s);
    }
}

/// The digits from 0 to 9 count what they say, and the letters from A to F, in
/// either case, count on from ten. No other character is a digit.
pub proof fn law_digits(c: char, d: nat)
    ensures
        48 <= c as u32 <= 57 ==> digit_value(c) == c as u32 - 48,
        65 <= c as u32 <= 70 ==> digit_value(c) == c as u32 - 55,
        97 <= c as u32 <= 102 ==> digit_value(c) == c as u32 - 87,
        !(48 <= c as u32 <= 57) && !(65 <= c as u32 <= 70) && !(97 <= c as u32 <= 102)
            ==> digit_value(c) >= 16,
        d < 10 ==> digit(d) as u32 == 48 + d,
        10 <= d < 16 ==> digit(d) as u32 == 55 + d,
{
}

/// One more digit multiplies what the digits before it denote by the radix and
/// adds its own value.
pub proof fn law_value_of_digits(s: Seq<char>, c: char, radix: nat)
    ensures
        numeral_value(Seq::empty(), radix) == 0,
        numeral_value(s.push(c), radix) == radix * numeral_value(s, radix) + digit_value(c),
{
    assert(s.push(c).drop_last() =~= s);
    let v = numeral_value(s, radix);
    assert(v * radix == radix * v) by (nonlinear_arith);
}

/// A number is written without zeros in front, but for the number zero.
pub proof fn law_no_leading_zero(n: nat, radix: nat)
    requires
        2 <= radix <= 16,
        n > 0,
    ensures
        numeral(n, radix)[0] != '0',
        numeral(n, radix).len() > 0,
    decreases n,
{
    if n >= radix {
        assert(0 < n / radix < n) by (nonlinear_arith)
            requires
                n >= radix,
                radix >= 2,
        ;
        law_no_leading_zero(n / radix, radix);
    }
}

/// Digits are read as the number they denote, with a plus sign in front or
/// without, and as none if that number is too large. A text of anything else
/// is no number.
pub proof fn law_reading_numbers(s: Seq<char>, radix: nat)
    requires
        2 <= radix <= 16,
    ensures
        is_numeral(s, radix) && numeral_value(s, radix) <= u32::MAX ==> parsed(s, radix) == Some(
            numeral_value(s, radix) as u32,
        ) && parsed(seq!['+'] + s, radix) == Some(numeral_value(s, radix) as u32),
        numeral_value(s, radix) > u32::MAX ==> parsed(s, radix) is None || s[0] == '+',
        s.len() == 0 ==> parsed(s, radix) is None && parsed(seq!['+'] + s, radix) is None,
        forall|i: int|
            0 <= i < s.len() && digit_value(#[trigger] s[i]) >= radix && (i > 0 || s[i] != '+')
                ==> parsed(s, radix) is None,
{
    let plus = seq!['+'] + s;
    assert(plus.skip(1) =~= s);
    assert(digit_value('+') == 16);
    if is_numeral(s, radix) {
        assert(digit_value(s[0]) < radix);
    }
    assert forall|i: int|
        0 <= i < s.len() && digit_value(#[trigger] s[i]) >= radix && (i > 0 || s[i]
            != '+') implies parsed(s, radix) is None by {
        let digits = unsigned_part(s);
        if s[0] == '+' {
            assert(digits[i - 1] == s[i]);
        } else {
            assert(digits[i] == s[i]);
        }
    }
}

/// Padding puts zeros in front until the width is reached, and no more.
pub proof fn law_padding(s: Seq<char>, width: nat)
    ensures
        s.len() >= width ==> zero_padded(s, width) == s,
        s.len() <= width ==> zero_padded(s, width).len() == width && zero_padded(s, width).skip(
            width - s.len(),
        ) == s && forall|i: int|
            0 <= i < width - s.len() ==> #[trigger] zero_padded(s, width)[i] == '0',
{
    if s.len() <= width {
        assert(zero_padded(s, width).skip(width - s.len()) =~= s);
    }
}

/// The last digit of a number is what dividing by the radix leaves over, and the
/// digits before it are those of the quotient.
pub proof fn law_last_digit(n: nat, radix: nat)
    requires
        2 <= radix <= 16,
    ensures
        numeral(n, radix).last() == digit(n % radix),
        n >= radix ==> numeral(n, radix).drop_last() == numeral(n / radix, radix),
        n < radix ==> numeral(n, radix).len() == 1,
{
    assert(n < radix ==> n % radix == n) by (nonlinear_arith)
        requires
            2 <= radix,
    ;
    if n >= radix {
        assert(numeral(n, radix).drop_last() =~= numeral(n / radix, radix));
    }
}

/// The decimal digits of a number are its digits to the radix ten.
pub proof fn law_decimal(n: nat)
    ensures
        decimal(n) == numeral(n, 10),
        numeral_value(decimal(n), 10) == n,
{
    law_numeral_round_trip(n, 10);
}

} // verus!
