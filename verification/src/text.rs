//! Text primitives: comparison, trimming, case folding, decimal numbers and
//! UTF-16, stated over the characters of a string.

use vstd::prelude::*;
use vstd::utf8::{decode_utf8, valid_utf8};

verus! {

/// The characters of each string of a list.
pub open spec fn texts(v: Seq<String>) -> Seq<Seq<char>> {
    Seq::new(v.len(), |i: int| v[i]@)
}

/// The characters of an optional string.
pub open spec fn opt_text(o: Option<String>) -> Option<Seq<char>> {
    match o {
        Some(s) => Some(s@),
        None => None,
    }
}

pub broadcast proof fn lemma_texts_push(v: Seq<String>, s: String)
    ensures
        #[trigger] texts(v.push(s)) == texts(v).push(s@),
{
    assert(texts(v.push(s)) =~= texts(v).push(s@));
}

/// `String::push` appends one character.
pub assume_specification[ String::push ](s: &mut String, c: char)
    ensures
        final(s)@ == old(s)@.push(c),
;

/// What `str::to_lowercase` makes of a text: the Unicode lowercase mapping.
pub uninterp spec fn lowercase(s: Seq<char>) -> Seq<char>;

pub open spec fn is_ascii_text(s: Seq<char>) -> bool {
    forall|i: int| 0 <= i < s.len() ==> (#[trigger] s[i] as u32) < 128
}

/// ASCII case folding of one character; every other character is kept.
pub open spec fn ascii_lower(c: char) -> char {
    if 'A' <= c && c <= 'Z' {
        ((c as u32 + 32) as u32) as char
    } else {
        c
    }
}

pub open spec fn ascii_lowered(s: Seq<char>) -> Seq<char> {
    Seq::new(s.len(), |i: int| ascii_lower(s[i]))
}

/// Calls `str::to_lowercase`. The contract claims that the result depends on
/// the characters alone, and that on ASCII text it maps `A` to `Z` onto `a`
/// to `z` and keeps the rest.
#[verifier::external_body]
fn to_lowercase(s: &str) -> (r: String)
    ensures
        r@ == lowercase(s@),
        is_ascii_text(s@) ==> r@ == ascii_lowered(s@),
{
    s.to_lowercase()
}

/// Calls `String::from_utf8`: the text that the bytes encode, if they are valid
/// UTF-8, and nothing otherwise.
#[verifier::external_body]
pub(crate) fn text_of_bytes(bytes: Vec<u8>) -> (r: Option<String>)
    ensures
        r is Some == valid_utf8(bytes@),
        r matches Some(s) ==> s@ == decode_utf8(bytes@),
{
    String::from_utf8(bytes).ok()
}

/// The characters of `s` as a vector.
pub fn chars_of(s: &str) -> (r: Vec<char>)
    ensures
        r@ == s@,
{
    let mut out: Vec<char> = Vec::new();
    for c in it: s.chars()
        invariant
            it.seq() == s@,
            out@ == s@.take(it.index()),
    {
        assert(s@.take(it.index()).push(c) =~= s@.take(it.index() + 1));
        out.push(c);
    }
    assert(s@.take(s@.len() as int) =~= s@);
    out
}

/// The string made of `cs[from..to]`.
pub fn string_of(cs: &Vec<char>, from: usize, to: usize) -> (r: String)
    requires
        from <= to <= cs@.len(),
    ensures
        r@ == cs@.subrange(from as int, to as int),
{
    let mut out = String::new();
    let mut i = from;
    while i < to
        invariant
            from <= i <= to <= cs@.len(),
            out@ == cs@.subrange(from as int, i as int),
        decreases to - i,
    {
        out.push(cs[i]);
        assert(cs@.subrange(from as int, i as int).push(cs@[i as int]) =~= cs@.subrange(
            from as int,
            i + 1,
        ));
        i = i + 1;
    }
    out
}

/// Whether two strings hold the same characters.
pub fn same_text(a: &str, b: &str) -> (r: bool)
    ensures
        r == (a@ == b@),
{
    let x = chars_of(a);
    let y = chars_of(b);
    if x.len() != y.len() {
        return false;
    }
    let mut i: usize = 0;
    while i < x.len()
        invariant
            x@ == a@,
            y@ == b@,
            x@.len() == y@.len(),
            i <= x@.len(),
            forall|j: int| 0 <= j < i ==> x@[j] == y@[j],
        decreases x@.len() - i,
    {
        if x[i] != y[i] {
            return false;
        }
        i = i + 1;
    }
    assert(x@ =~= y@);
    true
}

/// The Unicode `White_Space` property.
pub open spec fn is_white(c: char) -> bool {
    let u = c as u32;
    ||| 0x09 <= u <= 0x0d
    ||| u == 0x20
    ||| u == 0x85
    ||| u == 0xa0
    ||| u == 0x1680
    ||| 0x2000 <= u <= 0x200a
    ||| u == 0x2028
    ||| u == 0x2029
    ||| u == 0x202f
    ||| u == 0x205f
    ||| u == 0x3000
}

/// `s` without the white space it starts with.
pub open spec fn trimmed_start(s: Seq<char>) -> Seq<char>
    decreases s.len(),
{
    if s.len() > 0 && is_white(s[0]) {
        trimmed_start(s.skip(1))
    } else {
        s
    }
}

/// `s` without the white space it ends with.
pub open spec fn trimmed_end(s: Seq<char>) -> Seq<char>
    decreases s.len(),
{
    if s.len() > 0 && is_white(s.last()) {
        trimmed_end(s.drop_last())
    } else {
        s
    }
}

/// `s` without white space at either end.
pub open spec fn trimmed(s: Seq<char>) -> Seq<char> {
    trimmed_end(trimmed_start(s))
}

/// `s` without the run of `c` it starts with.
pub open spec fn without_leading(s: Seq<char>, c: char) -> Seq<char>
    decreases s.len(),
{
    if s.len() > 0 && s[0] == c {
        without_leading(s.skip(1), c)
    } else {
        s
    }
}

fn white(c: char) -> (r: bool)
    ensures
        r == is_white(c),
{
    let u = c as u32;
    (0x09 <= u && u <= 0x0d) || u == 0x20 || u == 0x85 || u == 0xa0 || u == 0x1680 || (0x2000 <= u
        && u <= 0x200a) || u == 0x2028 || u == 0x2029 || u == 0x202f || u == 0x205f || u == 0x3000
}

/// Drops white space at both ends.
pub fn trim(s: &str) -> (r: String)
    ensures
        r@ == trimmed(s@),
{
    let cs = chars_of(s);
    let mut from: usize = 0;
    assert(cs@.skip(0) =~= cs@);
    while from < cs.len() && white(cs[from])
        invariant
            cs@ == s@,
            from <= cs@.len(),
            trimmed_start(cs@.skip(from as int)) == trimmed_start(cs@),
        ensures
            from <= cs@.len(),
            from == cs@.len() || !is_white(cs@[from as int]),
            trimmed_start(cs@.skip(from as int)) == trimmed_start(cs@),
        decreases cs@.len() - from,
    {
        assert(cs@.skip(from as int).skip(1) =~= cs@.skip(from + 1));
        from = from + 1;
    }
    assert(trimmed_start(cs@) == cs@.skip(from as int));
    let mut to: usize = cs.len();
    assert(cs@.subrange(from as int, to as int) =~= cs@.skip(from as int));
    while from < to && white(cs[to - 1])
        invariant
            cs@ == s@,
            from <= to <= cs@.len(),
            trimmed_end(cs@.subrange(from as int, to as int)) == trimmed_end(
                cs@.skip(from as int),
            ),
        ensures
            from <= to <= cs@.len(),
            from == to || !is_white(cs@[to - 1]),
            trimmed_end(cs@.subrange(from as int, to as int)) == trimmed_end(
                cs@.skip(from as int),
            ),
        decreases to - from,
    {
        assert(cs@.subrange(from as int, to as int).drop_last() =~= cs@.subrange(
            from as int,
            to - 1,
        ));
        to = to - 1;
    }
    string_of(&cs, from, to)
}

/// Drops the run of `c` that `s` starts with.
pub fn trim_leading(s: &str, c: char) -> (r: String)
    ensures
        r@ == without_leading(s@, c),
{
    let cs = chars_of(s);
    let mut from: usize = 0;
    assert(cs@.skip(0) =~= cs@);
    while from < cs.len() && cs[from] == c
        invariant
            cs@ == s@,
            from <= cs@.len(),
            without_leading(cs@.skip(from as int), c) == without_leading(cs@, c),
        ensures
            from <= cs@.len(),
            from == cs@.len() || cs@[from as int] != c,
            without_leading(cs@.skip(from as int), c) == without_leading(cs@, c),
        decreases cs@.len() - from,
    {
        assert(cs@.skip(from as int).skip(1) =~= cs@.skip(from + 1));
        from = from + 1;
    }
    assert(cs@.subrange(from as int, cs@.len() as int) =~= cs@.skip(from as int));
    let to = cs.len();
    string_of(&cs, from, to)
}

/// Whether `needle` occurs in `hay` as a run of consecutive characters.
pub open spec fn occurs_in(needle: Seq<char>, hay: Seq<char>) -> bool {
    exists|i: int|
        0 <= i && i + needle.len() <= hay.len() && #[trigger] hay.subrange(i, i + needle.len())
            == needle
}

fn matches_at(hay: &Vec<char>, needle: &Vec<char>, at: usize) -> (r: bool)
    requires
        at + needle@.len() <= hay@.len(),
    ensures
        r == (hay@.subrange(at as int, at + needle@.len()) == needle@),
{
    let total = hay.len();
    let mut j: usize = 0;
    while j < needle.len()
        invariant
            total == hay@.len(),
            at + needle@.len() <= total,
            j <= needle@.len(),
            forall|k: int| 0 <= k < j ==> hay@[at + k] == needle@[k],
        decreases needle@.len() - j,
    {
        if hay[at + j] != needle[j] {
            assert(hay@.subrange(at as int, at + needle@.len())[j as int] != needle@[j as int]);
            return false;
        }
        j = j + 1;
    }
    assert(hay@.subrange(at as int, at + needle@.len()) =~= needle@);
    true
}

/// Whether `needle` occurs in `hay`.
pub fn contains_text(hay: &str, needle: &str) -> (r: bool)
    ensures
        r == occurs_in(needle@, hay@),
{
    let h = chars_of(hay);
    let n = chars_of(needle);
    if n.len() > h.len() {
        return false;
    }
    let last = h.len() - n.len();
    let mut i: usize = 0;
    while i <= last
        invariant
            h@ == hay@,
            n@ == needle@,
            last + n@.len() == h@.len(),
            i <= last + 1,
            forall|k: int|
                0 <= k < i ==> #[trigger] hay@.subrange(k, k + needle@.len()) != needle@,
        decreases last + 1 - i,
    {
        if matches_at(&h, &n, i) {
            return true;
        }
        if i == last {
            return false;
        }
        i = i + 1;
    }
    false
}

/// `s` without `prefix`, if it starts with it.
pub open spec fn stripped_prefix(s: Seq<char>, prefix: Seq<char>) -> Option<Seq<char>> {
    if prefix.len() <= s.len() && s.take(prefix.len() as int) == prefix {
        Some(s.skip(prefix.len() as int))
    } else {
        None
    }
}

pub fn strip_prefix(s: &str, prefix: &str) -> (r: Option<String>)
    ensures
        match r {
            Some(rest) => stripped_prefix(s@, prefix@) == Some(rest@),
            None => stripped_prefix(s@, prefix@) is None,
        },
{
    let cs = chars_of(s);
    let ps = chars_of(prefix);
    if ps.len() > cs.len() || !matches_at(&cs, &ps, 0) {
        return None;
    }
    let from = ps.len();
    let to = cs.len();
    assert(cs@.subrange(from as int, to as int) =~= cs@.skip(from as int));
    Some(string_of(&cs, from, to))
}

/// Whether two texts are the same but for the case of ASCII letters.
pub open spec fn same_but_ascii_case(a: Seq<char>, b: Seq<char>) -> bool {
    ascii_lowered(a) == ascii_lowered(b)
}

fn lower(c: char) -> (r: char)
    ensures
        r == ascii_lower(c),
{
    if 'A' <= c && c <= 'Z' {
        (c as u8 + 32) as char
    } else {
        c
    }
}

/// Folds the case of ASCII letters.
pub fn to_ascii_lowercase(s: &str) -> (r: String)
    ensures
        r@ == ascii_lowered(s@),
{
    let cs = chars_of(s);
    let mut out = String::new();
    let mut i: usize = 0;
    assert(out@ =~= ascii_lowered(s@).take(0));
    while i < cs.len()
        invariant
            cs@ == s@,
            i <= cs@.len(),
            out@ == ascii_lowered(s@).take(i as int),
        decreases cs@.len() - i,
    {
        out.push(lower(cs[i]));
        assert(out@ =~= ascii_lowered(s@).take(i + 1));
        i = i + 1;
    }
    assert(ascii_lowered(s@).take(s@.len() as int) =~= ascii_lowered(s@));
    out
}

/// Whether two texts are the same but for the case of ASCII letters.
pub fn eq_ignore_ascii_case(a: &str, b: &str) -> (r: bool)
    ensures
        r == same_but_ascii_case(a@, b@),
{
    same_text(&to_ascii_lowercase(a), &to_ascii_lowercase(b))
}

/// `s` in lower case: its ASCII letters are folded one by one, and other
/// characters as `str::to_lowercase` maps them.
pub open spec fn folded(s: Seq<char>) -> Seq<char> {
    let t = ascii_lowered(s);
    if is_ascii_text(t) {
        t
    } else {
        lowercase(t)
    }
}

/// Puts a text in lower case.
pub fn fold_case(s: &str) -> (r: String)
    ensures
        r@ == folded(s@),
{
    let t = to_ascii_lowercase(s);
    assert(ascii_lowered(t@) =~= t@);
    to_lowercase(&t)
}

/// Whether `s` ends with `suffix`.
pub open spec fn ends_with(s: Seq<char>, suffix: Seq<char>) -> bool {
    suffix.len() <= s.len() && s.skip(s.len() - suffix.len()) == suffix
}

/// Whether `s` ends with `suffix`.
pub fn has_suffix(s: &str, suffix: &str) -> (r: bool)
    ensures
        r == ends_with(s@, suffix@),
{
    let cs = chars_of(s);
    let ps = chars_of(suffix);
    if ps.len() > cs.len() {
        return false;
    }
    let at = cs.len() - ps.len();
    assert(cs@.subrange(at as int, at + ps@.len()) =~= cs@.skip(at as int));
    matches_at(&cs, &ps, at)
}

/// The UTF-16 code units of a character.
pub open spec fn units_of(c: char) -> Seq<u16> {
    let u = c as u32;
    if u < 0x1_0000 {
        seq![u as u16]
    } else {
        seq![
            (0xD800 + (u - 0x1_0000) / 0x400) as u16,
            (0xDC00 + (u - 0x1_0000) % 0x400) as u16,
        ]
    }
}

/// The UTF-16 code units of a text.
pub open spec fn utf16(s: Seq<char>) -> Seq<u16>
    decreases s.len(),
{
    if s.len() == 0 {
        Seq::empty()
    } else {
        utf16(s.drop_last()) + units_of(s.last())
    }
}

/// The UTF-16 code units of a text, with a zero behind them.
pub fn wide(s: &str) -> (r: Vec<u16>)
    ensures
        r@ == utf16(s@).push(0),
{
    let cs = chars_of(s);
    let mut out: Vec<u16> = Vec::new();
    let mut i: usize = 0;
    assert(out@ =~= utf16(s@.take(0)));
    while i < cs.len()
        invariant
            cs@ == s@,
            i <= cs@.len(),
            out@ == utf16(s@.take(i as int)),
        decreases cs@.len() - i,
    {
        proof {
            assert(s@.take(i + 1).drop_last() =~= s@.take(i as int));
            assert(s@.take(i + 1).last() == cs@[i as int]);
        }
        let ghost before = out@;
        let u: u32 = cs[i] as u32;
        if u < 0x1_0000 {
            out.push(u as u16);
        } else {
            let rest: u32 = u - 0x1_0000;
            out.push((0xD800 + rest / 0x400) as u16);
            out.push((0xDC00 + rest % 0x400) as u16);
        }
        assert(out@ =~= before + units_of(cs@[i as int]));
        i = i + 1;
    }
    assert(s@.take(s@.len() as int) =~= s@);
    out.push(0);
    out
}

/// Folding changes the letters from A to Z, whose small forms stand 32 places
/// behind them, and no other character.
pub proof fn law_folding_a_letter(c: char)
    ensures
        65 <= c as u32 <= 90 ==> ascii_lower(c) as u32 == c as u32 + 32,
        !(65 <= c as u32 <= 90) ==> ascii_lower(c) == c,
{
}

/// Texts are the same but for case if they are equally long and at each place
/// have the same character, or a letter from A to Z and its small form.
pub proof fn law_same_but_case(a: Seq<char>, b: Seq<char>)
    ensures
        same_but_ascii_case(a, b) == (a.len() == b.len() && forall|i: int|
            0 <= i < a.len() ==> {
                ||| #[trigger] a[i] == b[i]
                ||| 65 <= a[i] as u32 <= 90 && b[i] as u32 == a[i] as u32 + 32
                ||| 65 <= b[i] as u32 <= 90 && a[i] as u32 == b[i] as u32 + 32
            }),
{
    let x = ascii_lowered(a);
    let y = ascii_lowered(b);
    assert(x.len() == a.len() && y.len() == b.len());
    if x == y {
        assert forall|i: int| 0 <= i < a.len() implies {
            ||| #[trigger] a[i] == b[i]
            ||| 65 <= a[i] as u32 <= 90 && b[i] as u32 == a[i] as u32 + 32
            ||| 65 <= b[i] as u32 <= 90 && a[i] as u32 == b[i] as u32 + 32
        } by {
            assert(x[i] == y[i]);
        }
    }
    if a.len() == b.len() && forall|i: int|
        0 <= i < a.len() ==> {
            ||| #[trigger] a[i] == b[i]
            ||| 65 <= a[i] as u32 <= 90 && b[i] as u32 == a[i] as u32 + 32
            ||| 65 <= b[i] as u32 <= 90 && a[i] as u32 == b[i] as u32 + 32
        } {
        assert forall|i: int| 0 <= i < a.len() implies x[i] == y[i] by {
            assert(a[i] == a[i]);
        }
        assert(x =~= y);
    }
}

/// A text of ASCII characters is folded letter by letter; texts that are the
/// same but for case fold to the same text, and folding twice does nothing
/// more to a text of ASCII characters.
pub proof fn law_folding(a: Seq<char>, b: Seq<char>)
    ensures
        same_but_ascii_case(a, b) ==> folded(a) == folded(b),
        (forall|i: int| 0 <= i < a.len() ==> (#[trigger] a[i] as u32) < 128) ==> {
            &&& folded(a).len() == a.len()
            &&& same_but_ascii_case(folded(a), a)
            &&& forall|i: int|
                0 <= i < a.len() ==> !(65 <= #[trigger] folded(a)[i] as u32 <= 90)
            &&& folded(folded(a)) == folded(a)
        },
{
    let t = ascii_lowered(a);
    assert(ascii_lowered(t) =~= t);
    if forall|i: int| 0 <= i < a.len() ==> (#[trigger] a[i] as u32) < 128 {
        assert forall|i: int| 0 <= i < t.len() implies (#[trigger] t[i] as u32) < 128 by {
            assert((a[i] as u32) < 128);
        }
        assert(is_ascii_text(t));
    }
}

/// White space is the tab and the four controls behind it, the blank, the
/// next-line control, the blanks of other widths and scripts, and the line and
/// paragraph separators.
pub proof fn law_white_space(c: char)
    ensures
        is_white(c) == seq![
            0x9u32,
            0xAu32,
            0xBu32,
            0xCu32,
            0xDu32,
            0x20u32,
            0x85u32,
            0xA0u32,
            0x1680u32,
            0x2000u32,
            0x2001u32,
            0x2002u32,
            0x2003u32,
            0x2004u32,
            0x2005u32,
            0x2006u32,
            0x2007u32,
            0x2008u32,
            0x2009u32,
            0x200Au32,
            0x2028u32,
            0x2029u32,
            0x202Fu32,
            0x205Fu32,
            0x3000u32,
        ].contains(c as u32),
{
    let all = seq![
        0x9u32,
        0xAu32,
        0xBu32,
        0xCu32,
        0xDu32,
        0x20u32,
        0x85u32,
        0xA0u32,
        0x1680u32,
        0x2000u32,
        0x2001u32,
        0x2002u32,
        0x2003u32,
        0x2004u32,
        0x2005u32,
        0x2006u32,
        0x2007u32,
        0x2008u32,
        0x2009u32,
        0x200Au32,
        0x2028u32,
        0x2029u32,
        0x202Fu32,
        0x205Fu32,
        0x3000u32,
    ];
    assert(all.len() == 25);
    if is_white(c) {
        let u = c as u32;
        let k: int = if u <= 0xD {
            u - 9
        } else if u == 0x20 {
            5
        } else if u == 0x85 {
            6
        } else if u == 0xA0 {
            7
        } else if u == 0x1680 {
            8
        } else if u <= 0x200A {
            u - 0x2000 + 9
        } else if u == 0x2028 {
            20
        } else if u == 0x2029 {
            21
        } else if u == 0x202F {
            22
        } else if u == 0x205F {
            23
        } else {
            24
        };
        assert(all[k] == u);
    }
}

proof fn lemma_trimmed_start(s: Seq<char>) -> (n: int)
    ensures
        0 <= n <= s.len(),
        trimmed_start(s) == s.skip(n),
        forall|i: int| 0 <= i < n ==> is_white(#[trigger] s[i]),
        n < s.len() ==> !is_white(s[n]),
    decreases s.len(),
{
    if s.len() > 0 && is_white(s[0]) {
        let m = lemma_trimmed_start(s.skip(1));
        assert(s.skip(1).skip(m) =~= s.skip(m + 1));
        assert forall|i: int| 0 <= i < m + 1 implies is_white(#[trigger] s[i]) by {
            if i > 0 {
                assert(s.skip(1)[i - 1] == s[i]);
            }
        }
        m + 1
    } else {
        assert(s.skip(0) =~= s);
        0
    }
}

proof fn lemma_trimmed_end(s: Seq<char>) -> (n: int)
    ensures
        0 <= n <= s.len(),
        trimmed_end(s) == s.take(n),
        forall|i: int| n <= i < s.len() ==> is_white(#[trigger] s[i]),
        n > 0 ==> !is_white(s[n - 1]),
    decreases s.len(),
{
    if s.len() > 0 && is_white(s.last()) {
        let m = lemma_trimmed_end(s.drop_last());
        assert(s.drop_last().take(m) =~= s.take(m));
        assert forall|i: int| m <= i < s.len() implies is_white(#[trigger] s[i]) by {
            if i < s.len() - 1 {
                assert(s.drop_last()[i] == s[i]);
            }
        }
        m
    } else {
        assert(s.take(s.len() as int) =~= s);
        s.len() as int
    }
}

/// Trimming takes white space away at both ends and nothing else: what it
/// takes is white space, and what it leaves neither begins nor ends with any.
pub proof fn law_trimming(s: Seq<char>) -> (r: (int, int))
    ensures
        0 <= r.0 <= r.1 <= s.len(),
        trimmed(s) == s.subrange(r.0, r.1),
        forall|i: int| 0 <= i < r.0 || r.1 <= i < s.len() ==> is_white(#[trigger] s[i]),
        trimmed(s).len() > 0 ==> !is_white(trimmed(s)[0]) && !is_white(trimmed(s).last()),
{
    let a = lemma_trimmed_start(s);
    let t = s.skip(a);
    let b = lemma_trimmed_end(t);
    assert(t.take(b) =~= s.subrange(a, a + b));
    assert forall|i: int| 0 <= i < a || a + b <= i < s.len() implies is_white(
        #[trigger] s[i],
    ) by {
        if i >= a {
            assert(t[i - a] == s[i]);
        }
    }
    if b > 0 {
        assert(t[0] == s[a]);
        assert(trimmed(s)[0] == t[0]);
        assert(trimmed(s).last() == t[b - 1]);
    }
    (a, a + b)
}

/// What is left without a leading run of a character does not begin with that
/// character, and the run alone was taken away.
pub proof fn law_without_leading(s: Seq<char>, c: char) -> (n: int)
    ensures
        0 <= n <= s.len(),
        without_leading(s, c) == s.skip(n),
        forall|i: int| 0 <= i < n ==> #[trigger] s[i] == c,
        n < s.len() ==> s[n] != c,
    decreases s.len(),
{
    if s.len() > 0 && s[0] == c {
        let m = law_without_leading(s.skip(1), c);
        assert(s.skip(1).skip(m) =~= s.skip(m + 1));
        assert forall|i: int| 0 <= i < m + 1 implies #[trigger] s[i] == c by {
            if i > 0 {
                assert(s.skip(1)[i - 1] == s[i]);
            }
        }
        if m + 1 < s.len() {
            assert(s.skip(1)[m] == s[m + 1]);
        }
        m + 1
    } else {
        assert(s.skip(0) =~= s);
        0
    }
}

/// A text occurs in another exactly if the other is it with something in front
/// and something behind, which may be empty.
pub proof fn law_occurring(front: Seq<char>, needle: Seq<char>, back: Seq<char>, hay: Seq<char>)
    ensures
        occurs_in(needle, front + needle + back),
        occurs_in(needle, hay) ==> exists|a: Seq<char>, b: Seq<char>|
            hay == #[trigger] (a + needle + b),
{
    let all = front + needle + back;
    let i = front.len() as int;
    assert(all.subrange(i, i + needle.len()) =~= needle);
    if occurs_in(needle, hay) {
        let i = choose|i: int|
            0 <= i && i + needle.len() <= hay.len() && #[trigger] hay.subrange(i, i + needle.len())
                == needle;
        let a = hay.take(i);
        let b = hay.skip(i + needle.len());
        assert(hay =~= a + needle + b);
    }
}

/// A prefix that was put in front is taken away again, and nothing is taken
/// from a text that does not begin with it.
pub proof fn law_stripping_a_prefix(s: Seq<char>, prefix: Seq<char>, rest: Seq<char>)
    ensures
        stripped_prefix(prefix + rest, prefix) == Some(rest),
        stripped_prefix(s, prefix) matches Some(r) ==> s == prefix + r,
{
    let all = prefix + rest;
    assert(all.take(prefix.len() as int) =~= prefix);
    assert(all.skip(prefix.len() as int) =~= rest);
    if stripped_prefix(s, prefix) is Some {
        assert(s =~= prefix + stripped_prefix(s, prefix)->0);
    }
}

/// A text ends with a suffix exactly if it is something with that behind it.
pub proof fn law_ending(s: Seq<char>, front: Seq<char>, suffix: Seq<char>)
    ensures
        ends_with(front + suffix, suffix),
        ends_with(s, suffix) ==> exists|a: Seq<char>| s == #[trigger] (a + suffix),
{
    let all = front + suffix;
    assert(all.skip(front.len() as int) =~= suffix);
    if ends_with(s, suffix) {
        let a = s.take(s.len() - suffix.len());
        assert(s =~= a + suffix);
    }
}

/// A character is one code unit of its own number, or, from 0x1_0000 on, a high
/// and a low surrogate that carry ten bits each of what it is above that.
pub proof fn law_code_units(c: char)
    ensures
        (c as u32) < 0x1_0000 ==> units_of(c).len() == 1 && units_of(c)[0] == c as u32,
        c as u32 >= 0x1_0000 ==> {
            &&& units_of(c).len() == 2
            &&& 0xD800 <= units_of(c)[0] < 0xDC00
            &&& 0xDC00 <= units_of(c)[1] < 0xE000
            &&& (units_of(c)[0] - 0xD800) * 0x400 + (units_of(c)[1] - 0xDC00) + 0x1_0000
                == c as u32
        },
{
}

/// The code units of a text are those of its characters, one after the other.
pub proof fn law_utf16_of_a_longer_text(s: Seq<char>, t: Seq<char>, c: char)
    ensures
        utf16(Seq::empty()) == Seq::<u16>::empty(),
        utf16(seq![c]) == units_of(c),
        utf16(s + t) == utf16(s) + utf16(t),
    decreases t.len(),
{
    assert(seq![c].drop_last() =~= Seq::<char>::empty());
    assert(utf16(seq![c]) =~= units_of(c)) by {
        reveal_with_fuel(utf16, 2);
    }
    if t.len() == 0 {
        assert(s + t =~= s);
        assert(utf16(s) + utf16(t) =~= utf16(s));
    } else {
        law_utf16_of_a_longer_text(s, t.drop_last(), c);
        assert((s + t).drop_last() =~= s + t.drop_last());
        assert(utf16(s + t) =~= utf16(s) + utf16(t));
    }
}

/// A text is ASCII where every character has seven bits.
pub proof fn law_ascii_texts(s: Seq<char>, i: int)
    ensures
        is_ascii_text(s) && 0 <= i < s.len() ==> s[i] as u32 <= 127,
        !is_ascii_text(s) ==> exists|k: int| 0 <= k < s.len() && #[trigger] s[k] as u32 > 127,
{
}

} // verus!
