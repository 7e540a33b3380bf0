//! Colors: "#RRGGBB" as it stands in the layout, and its channels.

use vstd::prelude::*;
use crate::number::{
    digit_value, is_numeral, law_padding_keeps_value, numeral, numeral_value, parse_number, parsed,
    push_padded, unsigned_part, zero_padded,
};
use crate::text::{
    chars_of, string_of, strip_prefix, stripped_prefix, trim_leading, without_leading,
};

verus! {

/// The color of a fence that has none of its own.
pub const DEFAULT_COLOR: u32 = 0x1E1E2E;

#[derive(Clone, Copy, PartialEq, Eq, Structural, Debug)]
pub struct Rgb {
    pub r: u8,
    pub g: u8,
    pub b: u8,
}

/// The channels of a color 0xRRGGBB.
pub open spec fn channels(hex: u32) -> Rgb {
    Rgb {
        r: (hex / 0x1_0000 % 0x100) as u8,
        g: (hex / 0x100 % 0x100) as u8,
        b: (hex % 0x100) as u8,
    }
}

/// Splits a color into its channels.
pub fn color_from_hex(hex: u32) -> (c: Rgb)
    ensures
        c == channels(hex),
{
    Rgb {
        r: (hex / 0x1_0000 % 0x100) as u8,
        g: (hex / 0x100 % 0x100) as u8,
        b: (hex % 0x100) as u8,
    }
}

/// Whether a text is of the form "#RRGGBB".
pub open spec fn is_color(s: Seq<char>) -> bool {
    s.len() == 7 && s[0] == '#' && is_numeral(s.skip(1), 16)
}

/// The color that a text denotes; the default color if it denotes none.
pub open spec fn color_of(s: Seq<char>) -> u32 {
    if is_color(s) {
        numeral_value(s.skip(1), 16) as u32
    } else {
        DEFAULT_COLOR
    }
}

proof fn lemma_six_digits(s: Seq<char>)
    requires
        is_numeral(s, 16),
        s.len() == 6,
    ensures
        numeral_value(s, 16) < 0x100_0000,
{
    reveal_with_fuel(numeral_value, 7);
    assert(s.drop_last().drop_last().drop_last().drop_last().drop_last().drop_last().len() == 0);
    assert(crate::number::digit_value(s[0]) < 16);
    assert(crate::number::digit_value(s[1]) < 16);
    assert(crate::number::digit_value(s[2]) < 16);
    assert(crate::number::digit_value(s[3]) < 16);
    assert(crate::number::digit_value(s[4]) < 16);
    assert(crate::number::digit_value(s[5]) < 16);
}

/// Parses "#RRGGBB"; the default color on anything else.
pub fn parse_color(s: &str) -> (c: u32)
    ensures
        c == color_of(s@),
{
    let cs = chars_of(s);
    if cs.len() != 7 || cs[0] != '#' || cs[1] == '+' {
        proof {
            if s@.len() == 7 && s@[1] == '+' {
                assert(s@.skip(1)[0] == '+');
                assert(crate::number::digit_value('+') == 16);
            }
        }
        return DEFAULT_COLOR;
    }
    let digits = string_of(&cs, 1, 7);
    assert(digits@ =~= s@.skip(1));
    assert(unsigned_part(digits@) == digits@);
    proof {
        if is_numeral(digits@, 16) {
            lemma_six_digits(digits@);
        }
    }
    match parse_number(&digits, 16) {
        Some(hex) => hex,
        None => DEFAULT_COLOR,
    }
}

/// A color as the layout writes it: "#" and six digits in upper case, or more
/// if it needs more.
pub open spec fn color_text(hex: u32) -> Seq<char> {
    seq!['#'] + zero_padded(numeral(hex as nat, 16), 6)
}

/// Writes a color the way the layout does.
pub fn format_color(hex: u32) -> (r: String)
    ensures
        r@ == color_text(hex),
{
    let mut s = String::new();
    s.push('#');
    push_padded(&mut s, hex as u64, 16, 6);
    assert(s@ =~= color_text(hex));
    s
}

proof fn lemma_numeral_len(n: nat, k: nat)
    requires
        n < vstd::arithmetic::power::pow(16, k),
        k >= 1,
    ensures
        numeral(n, 16).len() <= k,
    decreases k,
{
    if n >= 16 {
        vstd::arithmetic::power::lemma_pow0(16);
        reveal(vstd::arithmetic::power::pow);
        assert(k >= 2) by {
            vstd::arithmetic::power::lemma_pow1(16);
        }
        lemma_numeral_len(n / 16, (k - 1) as nat);
    }
}

/// A color that was written to the layout is read back unchanged.
pub proof fn law_color_round_trip(hex: u32)
    requires
        hex <= 0xFF_FFFF,
    ensures
        is_color(color_text(hex)),
        color_of(color_text(hex)) == hex,
{
    let s = color_text(hex);
    law_padding_keeps_value(hex as nat, 16, 6);
    assert(vstd::arithmetic::power::pow(16, 6) == 0x100_0000) by {
        reveal(vstd::arithmetic::power::pow);
        assert(vstd::arithmetic::power::pow(16, 0) == 1);
        assert(vstd::arithmetic::power::pow(16, 1) == 16);
        assert(vstd::arithmetic::power::pow(16, 2) == 256);
        assert(vstd::arithmetic::power::pow(16, 3) == 4096);
        assert(vstd::arithmetic::power::pow(16, 4) == 65536);
        assert(vstd::arithmetic::power::pow(16, 5) == 1048576);
    }
    lemma_numeral_len(hex as nat, 6);
    assert(s.skip(1) =~= zero_padded(numeral(hex as nat, 16), 6));
}

/// What the menu takes a fence's color to be: hexadecimal digits after "#".
pub open spec fn menu_color(s: Seq<char>) -> u32 {
    match stripped_prefix(s, "#"@) {
        Some(rest) => match parsed(rest, 16) {
            Some(hex) => hex,
            None => DEFAULT_COLOR,
        },
        None => DEFAULT_COLOR,
    }
}

/// The color that a fence's menu shows as the current one.
pub fn current_menu_color(s: &str) -> (c: u32)
    ensures
        c == menu_color(s@),
{
    match strip_prefix(s, "#") {
        Some(rest) => match parse_number(&rest, 16) {
            Some(hex) => hex,
            None => DEFAULT_COLOR,
        },
        None => DEFAULT_COLOR,
    }
}

/// What the settings take the color to be: hexadecimal digits after any number
/// of "#".
pub open spec fn settings_color(s: Seq<char>) -> u32 {
    match parsed(without_leading(s, '#'), 16) {
        Some(hex) => hex,
        None => DEFAULT_COLOR,
    }
}

/// The color that the settings show as the current one.
pub fn current_settings_color(s: &str) -> (c: u32)
    ensures
        c == settings_color(s@),
{
    match parse_number(&trim_leading(s, '#'), 16) {
        Some(hex) => hex,
        None => DEFAULT_COLOR,
    }
}

/// A color that was chosen is the one that the menu and the settings show.
pub proof fn law_chosen_color_is_shown(hex: u32)
    ensures
        menu_color(color_text(hex)) == hex,
        settings_color(color_text(hex)) == hex,
{
    reveal_strlit("#");
    let s = color_text(hex);
    let digits = zero_padded(numeral(hex as nat, 16), 6);
    law_padding_keeps_value(hex as nat, 16, 6);
    assert(s.take(1) =~= "#"@);
    assert(s.skip(1) =~= digits);
    assert(digits[0] != '#') by {
        assert(crate::number::digit_value('#') == 16);
        assert(crate::number::digit_value(digits[0]) < 16);
    }
    reveal_with_fuel(without_leading, 2);
    assert(without_leading(s, '#') == digits);
}

/// The channels of a color make up its lower 24 bits, red on top.
pub proof fn law_channels(hex: u32)
    ensures
        channels(hex).r * 0x1_0000 + channels(hex).g * 0x100 + channels(hex).b == hex as int
            % 0x100_0000,
{
    assert(hex / 0x1_0000 % 0x100 < 0x100);
    assert(hex / 0x100 % 0x100 < 0x100);
}

/// A text denotes a color only if it is "#" and six hexadecimal digits. The
/// digits count from the left, and any other text denotes the default color.
pub proof fn law_what_a_color_is(s: Seq<char>)
    ensures
        s.len() != 7 ==> color_of(s) == 0x1E1E2E,
        s.len() == 7 && s[0] != '#' ==> color_of(s) == 0x1E1E2E,
        forall|i: int|
            s.len() == 7 && 1 <= i < 7 && digit_value(#[trigger] s[i]) >= 16 ==> color_of(s)
                == 0x1E1E2E,
        s.len() == 7 && s[0] == '#' && (forall|i: int|
            1 <= i < 7 ==> digit_value(#[trigger] s[i]) < 16) ==> color_of(s) == 0x10_0000
            * digit_value(s[1]) + 0x1_0000 * digit_value(s[2]) + 0x1000 * digit_value(s[3]) + 0x100
            * digit_value(s[4]) + 0x10 * digit_value(s[5]) + digit_value(s[6]),
{
    let d = s.skip(1);
    assert forall|i: int|
        s.len() == 7 && 1 <= i < 7 && digit_value(#[trigger] s[i]) >= 16 implies color_of(s)
        == 0x1E1E2E by {
        assert(d[i - 1] == s[i]);
    }
    if s.len() == 7 && s[0] == '#' && (forall|i: int|
        1 <= i < 7 ==> digit_value(#[trigger] s[i]) < 16) {
        assert forall|i: int| 0 <= i < d.len() implies digit_value(#[trigger] d[i]) < 16 by {
            assert(d[i] == s[i + 1]);
        }
        reveal_with_fuel(numeral_value, 7);
        lemma_six_digits(d);
        let three = d.drop_last().drop_last().drop_last();
        assert(three.drop_last().drop_last().drop_last().len() == 0);
        assert(d[0] == s[1] && d[1] == s[2] && d[2] == s[3] && d[3] == s[4] && d[4] == s[5] && d[5]
            == s[6]);
    }
}

/// The menu reads what follows one "#" as a hexadecimal number, and the settings
/// what follows as many as there are. What is no number is the default color.
pub proof fn law_current_colors(s: Seq<char>)
    ensures
        menu_color(seq!['#'] + s) == match parsed(s, 16) {
            Some(hex) => hex,
            None => 0x1E1E2E,
        },
        s.len() == 0 || s[0] != '#' ==> menu_color(s) == 0x1E1E2E,
        settings_color(seq!['#'] + s) == settings_color(s),
        s.len() == 0 || s[0] != '#' ==> settings_color(s) == match parsed(s, 16) {
            Some(hex) => hex,
            None => 0x1E1E2E,
        },
{
    reveal_strlit("#");
    let t = seq!['#'] + s;
    assert(t.take(1) =~= "#"@);
    assert(t.skip(1) =~= s);
    reveal_with_fuel(without_leading, 2);
    if s.len() > 0 && s[0] != '#' {
        assert(s.take(1)[0] != "#"@[0]);
    }
}

/// A color is written as "#", and its number in at least six hexadecimal digits.
pub proof fn law_how_a_color_is_written(hex: u32)
    ensures
        color_text(hex)[0] == '#',
        hex <= 0xFF_FFFF ==> color_text(hex).len() == 7,
        numeral_value(color_text(hex).skip(1), 16) == hex,
        color_text(hex).skip(1) == zero_padded(numeral(hex as nat, 16), 6),
{
    assert(color_text(hex).skip(1) =~= zero_padded(numeral(hex as nat, 16), 6));
    law_padding_keeps_value(hex as nat, 16, 6);
    if hex <= 0xFF_FFFF {
        law_color_round_trip(hex);
    }
}

} // verus!
