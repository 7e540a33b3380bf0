//! Snapshots of the layout: their file names, which of them the menu offers,
//! and what it calls them.

use vstd::prelude::*;
use vstd::relations::{sorted_by, total_ordering};
use crate::list::{lemma_filter_all, lemma_filter_take};
use crate::menu::MAX_SNAPSHOTS;
use crate::number::{
    digit, law_padding_keeps_value, numeral, numeral_value, push_padded, zero_padded,
};
use crate::path::{
    extension_of_name, file_name, name_extension, name_stem, path_file_name, stem_of_name,
};
use crate::text::{chars_of, same_text, string_of, texts};

verus! {

broadcast use crate::text::lemma_texts_push;

/// A local time.
#[derive(Clone, Copy, PartialEq, Eq, Structural, Debug)]
pub struct LocalTime {
    pub year: u16,
    pub month: u16,
    pub day: u16,
    pub hour: u16,
    pub minute: u16,
    pub second: u16,
}

/// A number with at least `width` decimal digits.
pub open spec fn padded(n: u16, width: nat) -> Seq<char> {
    zero_padded(numeral(n as nat, 10), width)
}

/// The file name of a snapshot that was taken at a time.
pub open spec fn name_at(t: LocalTime) -> Seq<char> {
    "layout-"@ + padded(t.year, 4) + padded(t.month, 2) + padded(t.day, 2) + "-"@ + padded(
        t.hour,
        2,
    ) + padded(t.minute, 2) + padded(t.second, 2) + ".json"@
}

/// The file name of a snapshot that is taken at a time.
pub fn snapshot_name(t: LocalTime) -> (r: String)
    ensures
        r@ == name_at(t),
{
    let mut s = "layout-".to_owned();
    push_padded(&mut s, t.year as u64, 10, 4);
    push_padded(&mut s, t.month as u64, 10, 2);
    push_padded(&mut s, t.day as u64, 10, 2);
    s.append("-");
    push_padded(&mut s, t.hour as u64, 10, 2);
    push_padded(&mut s, t.minute as u64, 10, 2);
    push_padded(&mut s, t.second as u64, 10, 2);
    s.append(".json");
    s
}

/// Whether `a` does not come after `b` in the order of their characters.
pub open spec fn text_leq(a: Seq<char>, b: Seq<char>) -> bool
    decreases a.len(),
{
    if a.len() == 0 {
        true
    } else if b.len() == 0 {
        false
    } else if a[0] != b[0] {
        a[0] < b[0]
    } else {
        text_leq(a.skip(1), b.skip(1))
    }
}

/// The order in which the menu lists names: the highest first.
pub open spec fn later_first() -> spec_fn(Seq<char>, Seq<char>) -> bool {
    |a: Seq<char>, b: Seq<char>| text_leq(b, a)
}

/// Whether a file is a snapshot.
pub open spec fn is_snapshot() -> spec_fn(Seq<char>) -> bool {
    |name: Seq<char>| name_extension(name) == Some("json"@)
}

/// The snapshots that the menu offers: the latest ones, as many as it can
/// hold.
pub open spec fn offered(names: Seq<Seq<char>>) -> Seq<Seq<char>> {
    let all = names.filter(is_snapshot()).sort_by(later_first());
    if all.len() > MAX_SNAPSHOTS {
        all.take(MAX_SNAPSHOTS as int)
    } else {
        all
    }
}

proof fn lemma_text_leq_total(a: Seq<char>, b: Seq<char>)
    ensures
        text_leq(a, b) || text_leq(b, a),
        text_leq(a, b) && text_leq(b, a) ==> a == b,
        a == b ==> text_leq(a, b),
    decreases a.len(),
{
    if a.len() > 0 && b.len() > 0 {
        lemma_text_leq_total(a.skip(1), b.skip(1));
        if a[0] == b[0] && a.skip(1) == b.skip(1) {
            assert(a =~= seq![a[0]] + a.skip(1));
            assert(b =~= seq![b[0]] + b.skip(1));
        }
    } else if a.len() == 0 && b.len() == 0 {
        assert(a =~= b);
    }
}

proof fn lemma_text_leq_transitive(a: Seq<char>, b: Seq<char>, c: Seq<char>)
    requires
        text_leq(a, b),
        text_leq(b, c),
    ensures
        text_leq(a, c),
    decreases a.len(),
{
    if a.len() > 0 && b.len() > 0 && c.len() > 0 && a[0] == b[0] && b[0] == c[0] {
        lemma_text_leq_transitive(a.skip(1), b.skip(1), c.skip(1));
    }
}

proof fn lemma_later_first_is_order()
    ensures
        total_ordering(later_first()),
{
    let leq = later_first();
    assert forall|x: Seq<char>| #[trigger] leq(x, x) by {
        lemma_text_leq_total(x, x);
    }
    assert forall|x: Seq<char>, y: Seq<char>| #[trigger] leq(x, y) && #[trigger] leq(y, x) implies x
        == y by {
        lemma_text_leq_total(x, y);
    }
    assert forall|x: Seq<char>, y: Seq<char>, z: Seq<char>| #[trigger]
        leq(x, y) && #[trigger] leq(y, z) implies leq(x, z) by {
        lemma_text_leq_transitive(z, y, x);
    }
    assert forall|x: Seq<char>, y: Seq<char>| #[trigger] leq(x, y) || #[trigger] leq(y, x) by {
        lemma_text_leq_total(x, y);
    }
}

/// Compares two texts in the order of their characters.
fn not_after(a: &str, b: &str) -> (r: bool)
    ensures
        r == text_leq(a@, b@),
{
    let x = chars_of(a);
    let y = chars_of(b);
    let mut i: usize = 0;
    assert(x@.skip(0) =~= x@);
    assert(y@.skip(0) =~= y@);
    while i < x.len() && i < y.len()
        invariant
            x@ == a@,
            y@ == b@,
            i <= x@.len(),
            i <= y@.len(),
            text_leq(a@, b@) == text_leq(x@.skip(i as int), y@.skip(i as int)),
        decreases x@.len() - i,
    {
        proof {
            assert(x@.skip(i as int).skip(1) =~= x@.skip(i + 1));
            assert(y@.skip(i as int).skip(1) =~= y@.skip(i + 1));
        }
        if x[i] != y[i] {
            return x[i] < y[i];
        }
        i = i + 1;
    }
    i == x.len()
}

/// A name that is inserted behind the later ones and before the others keeps
/// the order.
proof fn lemma_ordered_insert(names: Seq<Seq<char>>, at: int, name: Seq<char>)
    requires
        sorted_by(names, later_first()),
        0 <= at <= names.len(),
        forall|k: int| 0 <= k < at ==> !text_leq(#[trigger] names[k], name),
        at < names.len() ==> text_leq(names[at], name),
    ensures
        sorted_by(names.insert(at, name), later_first()),
{
    let after = names.insert(at, name);
    let leq = later_first();
    assert forall|i: int, j: int| 0 <= i < j < after.len() implies #[trigger] leq(
        after[i],
        after[j],
    ) by {
        if i == at {
            assert(after[j] == names[j - 1]);
            if j - 1 > at {
                assert(leq(names[at], names[j - 1]));
                lemma_text_leq_transitive(names[j - 1], names[at], name);
            }
        } else if j == at {
            assert(after[i] == names[i]);
            lemma_text_leq_total(names[i], name);
        } else {
            let a = if i < at { i } else { i - 1 };
            let b = if j < at { j } else { j - 1 };
            assert(leq(names[a], names[b]));
        }
    }
}

/// Puts a name in its place among names that are in order.
fn insert_name(sorted: &mut Vec<String>, name: String)
    requires
        sorted_by(texts(old(sorted)@), later_first()),
    ensures
        sorted_by(texts(final(sorted)@), later_first()),
        texts(final(sorted)@).to_multiset() == texts(old(sorted)@).to_multiset().insert(name@),
{
    let ghost before = texts(sorted@);
    let mut at: usize = 0;
    while at < sorted.len() && !not_after(&sorted[at], &name)
        invariant
            before == texts(sorted@),
            at <= sorted@.len(),
            forall|k: int| 0 <= k < at ==> !text_leq(#[trigger] before[k], name@),
        decreases sorted@.len() - at,
    {
        at = at + 1;
    }
    sorted.insert(at, name);
    proof {
        let after = texts(sorted@);
        assert(after =~= before.insert(at as int, name@));
        vstd::seq_lib::to_multiset_insert(before, at as int, name@);
        lemma_ordered_insert(before, at as int, name@);
    }
}

/// The snapshots that the menu offers, of the names of the files in the
/// directory for snapshots: the latest first, as many as the menu can hold.
pub fn list_snapshots(names: &Vec<String>) -> (r: Vec<String>)
    ensures
        texts(r@) == offered(texts(names@)),
        r@.len() <= MAX_SNAPSHOTS,
{
    let ghost all = texts(names@);
    let mut sorted: Vec<String> = Vec::new();
    let mut i: usize = 0;
    proof {
        reveal(Seq::filter);
        assert(texts(sorted@) =~= all.take(0).filter(is_snapshot()));
    }
    while i < names.len()
        invariant
            all == texts(names@),
            i <= names@.len(),
            sorted_by(texts(sorted@), later_first()),
            texts(sorted@).to_multiset() == all.take(i as int).filter(is_snapshot()).to_multiset(),
        decreases names@.len() - i,
    {
        proof {
            broadcast use vstd::seq_lib::group_to_multiset_ensures;

            lemma_filter_take(all, is_snapshot(), i as int);
        }
        let json = match extension_of_name(&names[i]) {
            Some(e) => same_text(&e, "json"),
            None => false,
        };
        if json {
            insert_name(&mut sorted, names[i].clone());
        }
        i = i + 1;
    }
    proof {
        assert(all.take(all.len() as int) =~= all);
        let wanted = all.filter(is_snapshot());
        lemma_later_first_is_order();
        wanted.lemma_sort_by_ensures(later_first());
        vstd::seq_lib::lemma_sorted_unique(
            texts(sorted@),
            wanted.sort_by(later_first()),
            later_first(),
        );
    }
    let ghost full = texts(sorted@);
    let mut out: Vec<String> = Vec::new();
    let mut k: usize = 0;
    assert(texts(out@) =~= full.take(0));
    while k < sorted.len() && k < MAX_SNAPSHOTS
        invariant
            full == texts(sorted@),
            k <= sorted@.len(),
            k <= MAX_SNAPSHOTS,
            out@.len() == k,
            texts(out@) == full.take(k as int),
        decreases sorted@.len() - k,
    {
        out.push(sorted[k].clone());
        assert(texts(out@) =~= full.take(k + 1));
        k = k + 1;
    }
    proof {
        if full.len() <= MAX_SNAPSHOTS {
            assert(full.take(full.len() as int) =~= full);
        }
    }
    out
}

/// Whether a character is a decimal digit.
pub open spec fn is_digit() -> spec_fn(char) -> bool {
    |c: char| '0' <= c && c <= '9'
}

/// Fourteen digits as a date and a time.
pub open spec fn as_time(d: Seq<char>) -> Seq<char> {
    d.subrange(0, 4) + "-"@ + d.subrange(4, 6) + "-"@ + d.subrange(6, 8) + " "@ + d.subrange(8, 10)
        + ":"@ + d.subrange(10, 12) + ":"@ + d.subrange(12, 14)
}

/// What the menu calls a snapshot: the date and time in its name, or the name
/// itself if it does not hold one.
pub open spec fn label_of(name: Option<Seq<char>>) -> Seq<char> {
    match name {
        Some(name) => {
            let digits = name_stem(name).filter(is_digit());
            if digits.len() == 14 {
                as_time(digits)
            } else {
                name_stem(name)
            }
        },
        None => "?"@,
    }
}

/// What the menu calls a snapshot, given its path.
pub fn snapshot_label(path: &str) -> (r: String)
    ensures
        r@ == label_of(path_file_name(path@)),
{
    label_for_name(&file_name(path))
}

/// What the menu calls the snapshot with a file name, if its path has one.
pub fn label_for_name(name: &Option<String>) -> (r: String)
    ensures
        r@ == label_of(crate::text::opt_text(*name)),
{
    let name = match name {
        Some(name) => name,
        None => {
            return "?".to_owned();
        },
    };
    let stem = stem_of_name(name);
    let cs = chars_of(&stem);
    let mut digits: Vec<char> = Vec::new();
    let mut i: usize = 0;
    proof {
        reveal(Seq::filter);
        assert(digits@ =~= cs@.take(0).filter(is_digit()));
    }
    while i < cs.len()
        invariant
            i <= cs@.len(),
            digits@ == cs@.take(i as int).filter(is_digit()),
        decreases cs@.len() - i,
    {
        proof {
            lemma_filter_take(cs@, is_digit(), i as int);
        }
        if '0' <= cs[i] && cs[i] <= '9' {
            digits.push(cs[i]);
        }
        i = i + 1;
    }
    assert(cs@.take(cs@.len() as int) =~= cs@);
    if digits.len() != 14 {
        return stem;
    }
    let mut s = string_of(&digits, 0, 4);
    s.append("-");
    s.append(&string_of(&digits, 4, 6));
    s.append("-");
    s.append(&string_of(&digits, 6, 8));
    s.append(" ");
    s.append(&string_of(&digits, 8, 10));
    s.append(":");
    s.append(&string_of(&digits, 10, 12));
    s.append(":");
    s.append(&string_of(&digits, 12, 14));
    s
}

/// Whether a time has the ranges of a calendar and a clock.
pub open spec fn is_time(t: LocalTime) -> bool {
    t.year <= 9999 && t.month <= 12 && t.day <= 31 && t.hour <= 23 && t.minute <= 59 && t.second
        <= 60
}

/// Whether `a` is earlier than `b`.
pub open spec fn earlier(a: LocalTime, b: LocalTime) -> bool {
    ||| a.year < b.year
    ||| a.year == b.year && a.month < b.month
    ||| a.year == b.year && a.month == b.month && a.day < b.day
    ||| a.year == b.year && a.month == b.month && a.day == b.day && a.hour < b.hour
    ||| a.year == b.year && a.month == b.month && a.day == b.day && a.hour == b.hour && a.minute
        < b.minute
    ||| a.year == b.year && a.month == b.month && a.day == b.day && a.hour == b.hour && a.minute
        == b.minute && a.second < b.second
}

/// Exactly `width` decimal digits of a number.
spec fn fixed(n: nat, width: nat) -> Seq<char>
    decreases width,
{
    if width == 0 {
        Seq::empty()
    } else {
        fixed(n / 10, (width - 1) as nat).push(digit(n % 10))
    }
}

proof fn lemma_fixed_zero(width: nat)
    ensures
        fixed(0, width) == Seq::new(width, |i: int| '0'),
    decreases width,
{
    if width > 0 {
        lemma_fixed_zero((width - 1) as nat);
    }
    assert(fixed(0, width) =~= Seq::new(width, |i: int| '0'));
}

proof fn lemma_fixed(n: nat, width: nat)
    requires
        n < vstd::arithmetic::power::pow(10, width),
        width >= 1,
    ensures
        fixed(n, width) == zero_padded(numeral(n, 10), width),
        fixed(n, width).len() == width,
        numeral(n, 10).len() <= width,
    decreases width,
{
    reveal(vstd::arithmetic::power::pow);
    let w = (width - 1) as nat;
    if n < 10 {
        lemma_fixed_zero(w);
        assert(fixed(n, width) =~= zero_padded(numeral(n, 10), width));
    } else {
        assert(w >= 1) by {
            vstd::arithmetic::power::lemma_pow1(10);
        }
        lemma_fixed(n / 10, w);
        assert(zero_padded(numeral(n, 10), width) =~= zero_padded(numeral(n / 10, 10), w).push(
            digit(n % 10),
        ));
    }
}

proof fn lemma_fixed_digits(n: nat, width: nat)
    ensures
        fixed(n, width).len() == width,
        forall|i: int| 0 <= i < width ==> is_digit()(#[trigger] fixed(n, width)[i]),
    decreases width,
{
    if width > 0 {
        lemma_fixed_digits(n / 10, (width - 1) as nat);
    }
}

/// Texts that start alike are ordered by what follows.
proof fn lemma_same_start(start: Seq<char>, a: Seq<char>, b: Seq<char>)
    ensures
        text_leq(start + a, start + b) == text_leq(a, b),
    decreases start.len(),
{
    if start.len() > 0 {
        lemma_same_start(start.skip(1), a, b);
        assert((start + a).skip(1) =~= start.skip(1) + a);
        assert((start + b).skip(1) =~= start.skip(1) + b);
    } else {
        assert(start + a =~= a);
        assert(start + b =~= b);
    }
}

/// Texts whose starts differ are ordered by their starts.
proof fn lemma_lower_start(x: Seq<char>, y: Seq<char>, a: Seq<char>, b: Seq<char>)
    requires
        x.len() == y.len(),
        x != y,
        text_leq(x, y),
    ensures
        text_leq(x + a, y + b),
        x + a != y + b,
    decreases x.len(),
{
    if x.len() == 0 {
        assert(x =~= y);
    } else {
        assert((x + a)[0] == x[0]);
        assert((y + b)[0] == y[0]);
        if x[0] == y[0] {
            assert(x.skip(1) != y.skip(1)) by {
                if x.skip(1) == y.skip(1) {
                    assert(x =~= seq![x[0]] + x.skip(1));
                    assert(y =~= seq![y[0]] + y.skip(1));
                }
            }
            lemma_lower_start(x.skip(1), y.skip(1), a, b);
            assert((x + a).skip(1) =~= x.skip(1) + a);
            assert((y + b).skip(1) =~= y.skip(1) + b);
        }
    }
}

/// Lower numbers of the same width come first.
proof fn lemma_fixed_order(a: nat, b: nat, width: nat)
    requires
        a < b < vstd::arithmetic::power::pow(10, width),
    ensures
        text_leq(fixed(a, width), fixed(b, width)),
        fixed(a, width) != fixed(b, width),
    decreases width,
{
    reveal(vstd::arithmetic::power::pow);
    if width > 0 {
        let w = (width - 1) as nat;
        let x = fixed(a / 10, w);
        let y = fixed(b / 10, w);
        let p = seq![digit(a % 10)];
        let q = seq![digit(b % 10)];
        assert(fixed(a, width) =~= x + p);
        assert(fixed(b, width) =~= y + q);
        lemma_fixed_digits(a / 10, w);
        lemma_fixed_digits(b / 10, w);
        if a / 10 < b / 10 {
            lemma_fixed_order(a / 10, b / 10, w);
            lemma_lower_start(x, y, p, q);
        } else {
            assert(x == y);
            assert(a % 10 < b % 10);
            assert(digit(a % 10) < digit(b % 10));
            lemma_same_start(x, p, q);
            assert(fixed(a, width)[w as int] != fixed(b, width)[w as int]);
        }
    }
}

proof fn lemma_small_powers()
    ensures
        vstd::arithmetic::power::pow(10, 2) == 100,
        vstd::arithmetic::power::pow(10, 4) == 10000,
{
    reveal(vstd::arithmetic::power::pow);
    assert(vstd::arithmetic::power::pow(10, 0) == 1);
    assert(vstd::arithmetic::power::pow(10, 1) == 10);
    assert(vstd::arithmetic::power::pow(10, 2) == 100);
    assert(vstd::arithmetic::power::pow(10, 3) == 1000);
}

/// The digits of a time, with a dash between date and time.
spec fn stamp(t: LocalTime) -> Seq<char> {
    fixed(t.year as nat, 4) + (fixed(t.month as nat, 2) + (fixed(t.day as nat, 2) + ("-"@ + (fixed(
        t.hour as nat,
        2,
    ) + (fixed(t.minute as nat, 2) + (fixed(t.second as nat, 2) + ".json"@))))))
}

proof fn lemma_name_is_stamp(t: LocalTime)
    requires
        is_time(t),
    ensures
        name_at(t) == "layout-"@ + stamp(t),
{
    lemma_small_powers();
    lemma_fixed(t.year as nat, 4);
    lemma_fixed(t.month as nat, 2);
    lemma_fixed(t.day as nat, 2);
    lemma_fixed(t.hour as nat, 2);
    lemma_fixed(t.minute as nat, 2);
    lemma_fixed(t.second as nat, 2);
    assert(name_at(t) =~= "layout-"@ + stamp(t));
}

/// A field and what follows it: the order of the field decides, and what
/// follows decides where the field is the same.
proof fn lemma_field(a: nat, b: nat, width: nat, x: Seq<char>, y: Seq<char>)
    requires
        a < b < vstd::arithmetic::power::pow(10, width) || a == b && text_leq(x, y),
    ensures
        text_leq(fixed(a, width) + x, fixed(b, width) + y),
{
    lemma_fixed_digits(a, width);
    lemma_fixed_digits(b, width);
    if a < b {
        lemma_fixed_order(a, b, width);
        lemma_lower_start(fixed(a, width), fixed(b, width), x, y);
    } else {
        lemma_same_start(fixed(a, width), x, y);
    }
}

/// The menu lists the snapshot of a later time before that of an earlier one.
pub proof fn law_later_snapshot_comes_first(a: LocalTime, b: LocalTime)
    requires
        is_time(a),
        is_time(b),
        earlier(a, b),
    ensures
        later_first()(name_at(b), name_at(a)),
        !later_first()(name_at(a), name_at(b)),
{
    lemma_small_powers();
    lemma_name_is_stamp(a);
    lemma_name_is_stamp(b);
    let a6 = fixed(a.second as nat, 2) + ".json"@;
    let b6 = fixed(b.second as nat, 2) + ".json"@;
    let a5 = fixed(a.minute as nat, 2) + a6;
    let b5 = fixed(b.minute as nat, 2) + b6;
    let a4 = fixed(a.hour as nat, 2) + a5;
    let b4 = fixed(b.hour as nat, 2) + b5;
    let a3 = fixed(a.day as nat, 2) + ("-"@ + a4);
    let b3 = fixed(b.day as nat, 2) + ("-"@ + b4);
    let a2 = fixed(a.month as nat, 2) + a3;
    let b2 = fixed(b.month as nat, 2) + b3;
    lemma_text_leq_total(".json"@, ".json"@);
    let same_day = a.year == b.year && a.month == b.month && a.day == b.day;
    if same_day && a.hour == b.hour && a.minute == b.minute {
        lemma_field(a.second as nat, b.second as nat, 2, ".json"@, ".json"@);
    }
    if same_day && a.hour == b.hour {
        lemma_field(a.minute as nat, b.minute as nat, 2, a6, b6);
    }
    if same_day {
        lemma_field(a.hour as nat, b.hour as nat, 2, a5, b5);
        lemma_same_start("-"@, a4, b4);
    }
    if a.year == b.year && a.month == b.month {
        lemma_field(a.day as nat, b.day as nat, 2, "-"@ + a4, "-"@ + b4);
    }
    if a.year == b.year {
        lemma_field(a.month as nat, b.month as nat, 2, a3, b3);
    }
    lemma_field(a.year as nat, b.year as nat, 4, a2, b2);
    lemma_same_start("layout-"@, stamp(a), stamp(b));
    // The names differ, so the order is strict.
    lemma_names_differ(a, b);
    lemma_text_leq_total(name_at(a), name_at(b));
}

/// Snapshots of different times have different names.
proof fn lemma_names_differ(a: LocalTime, b: LocalTime)
    requires
        is_time(a),
        is_time(b),
        a != b,
    ensures
        name_at(a) != name_at(b),
{
    lemma_name_is_stamp(a);
    lemma_name_is_stamp(b);
    lemma_small_powers();
    let x = "layout-"@ + stamp(a);
    let y = "layout-"@ + stamp(b);
    lemma_parts(a);
    lemma_parts(b);
    if x == y {
        let k = "layout-"@.len() as int;
        lemma_fixed_differ(a.year as nat, b.year as nat, 4);
        lemma_fixed_differ(a.month as nat, b.month as nat, 2);
        lemma_fixed_differ(a.day as nat, b.day as nat, 2);
        lemma_fixed_differ(a.hour as nat, b.hour as nat, 2);
        lemma_fixed_differ(a.minute as nat, b.minute as nat, 2);
        lemma_fixed_differ(a.second as nat, b.second as nat, 2);
        assert(x.skip(k) =~= stamp(a));
        assert(y.skip(k) =~= stamp(b));
    }
}

proof fn lemma_fixed_differ(a: nat, b: nat, width: nat)
    requires
        a < vstd::arithmetic::power::pow(10, width),
        b < vstd::arithmetic::power::pow(10, width),
    ensures
        fixed(a, width) == fixed(b, width) ==> a == b,
{
    if a < b {
        lemma_fixed_order(a, b, width);
    } else if b < a {
        lemma_fixed_order(b, a, width);
    }
}

/// Where the fields stand in a stamp.
proof fn lemma_parts(t: LocalTime)
    ensures
        stamp(t).len() == 20,
        stamp(t).subrange(0, 4) == fixed(t.year as nat, 4),
        stamp(t).subrange(4, 6) == fixed(t.month as nat, 2),
        stamp(t).subrange(6, 8) == fixed(t.day as nat, 2),
        stamp(t).subrange(8, 9) == "-"@,
        stamp(t).subrange(9, 11) == fixed(t.hour as nat, 2),
        stamp(t).subrange(11, 13) == fixed(t.minute as nat, 2),
        stamp(t).subrange(13, 15) == fixed(t.second as nat, 2),
        stamp(t).subrange(15, 20) == ".json"@,
{
    reveal_strlit("-");
    reveal_strlit(".json");
    lemma_fixed_digits(t.year as nat, 4);
    lemma_fixed_digits(t.month as nat, 2);
    lemma_fixed_digits(t.day as nat, 2);
    lemma_fixed_digits(t.hour as nat, 2);
    lemma_fixed_digits(t.minute as nat, 2);
    lemma_fixed_digits(t.second as nat, 2);
    let s = stamp(t);
    assert(s.subrange(0, 4) =~= fixed(t.year as nat, 4));
    assert(s.subrange(4, 6) =~= fixed(t.month as nat, 2));
    assert(s.subrange(6, 8) =~= fixed(t.day as nat, 2));
    assert(s.subrange(8, 9) =~= "-"@);
    assert(s.subrange(9, 11) =~= fixed(t.hour as nat, 2));
    assert(s.subrange(11, 13) =~= fixed(t.minute as nat, 2));
    assert(s.subrange(13, 15) =~= fixed(t.second as nat, 2));
    assert(s.subrange(15, 20) =~= ".json"@);
}

proof fn lemma_no_digits(s: Seq<char>)
    requires
        forall|i: int| 0 <= i < s.len() ==> !is_digit()(#[trigger] s[i]),
    ensures
        s.filter(is_digit()) == Seq::<char>::empty(),
    decreases s.len(),
{
    reveal(Seq::filter);
    if s.len() > 0 {
        assert(!is_digit()(s[s.len() - 1]));
        assert forall|i: int| 0 <= i < s.len() - 1 implies !is_digit()(
            #[trigger] s.drop_last()[i],
        ) by {
            assert(!is_digit()(s[i]));
        }
        lemma_no_digits(s.drop_last());
    }
}

/// Digits of a number are found again behind what was found before.
proof fn lemma_found(before: Seq<char>, n: nat, width: nat)
    ensures
        (before + fixed(n, width)).filter(is_digit()) == before.filter(is_digit()) + fixed(
            n,
            width,
        ),
{
    lemma_fixed_digits(n, width);
    lemma_filter_all(fixed(n, width), is_digit());
    Seq::filter_distributes_over_add(before, fixed(n, width), is_digit());
}

/// A snapshot is offered by the menu under the date and time at which it was
/// taken.
#[verifier::spinoff_prover]
#[verifier::rlimit(40)]
pub proof fn law_snapshot_label(t: LocalTime)
    requires
        is_time(t),
    ensures
        is_snapshot()(name_at(t)),
        label_of(Some(name_at(t))) == padded(t.year, 4) + "-"@ + padded(t.month, 2) + "-"@ + padded(
            t.day,
            2,
        ) + " "@ + padded(t.hour, 2) + ":"@ + padded(t.minute, 2) + ":"@ + padded(t.second, 2),
{
    reveal_strlit("layout-");
    reveal_strlit("-");
    reveal_strlit(".json");
    reveal_strlit("json");
    lemma_name_is_stamp(t);
    lemma_parts(t);
    let name = name_at(t);
    let y = fixed(t.year as nat, 4);
    let mo = fixed(t.month as nat, 2);
    let d = fixed(t.day as nat, 2);
    let h = fixed(t.hour as nat, 2);
    let mi = fixed(t.minute as nat, 2);
    let s = fixed(t.second as nat, 2);
    let stem = "layout-"@ + y + mo + d + "-"@ + h + mi + s;
    lemma_fixed_digits(t.year as nat, 4);
    lemma_fixed_digits(t.month as nat, 2);
    lemma_fixed_digits(t.day as nat, 2);
    lemma_fixed_digits(t.hour as nat, 2);
    lemma_fixed_digits(t.minute as nat, 2);
    lemma_fixed_digits(t.second as nat, 2);
    assert(name =~= stem + ".json"@);
    name.index_of_last_ensures('.');
    assert(name[22] == '.');
    assert(name[23] == 'j' && name[24] == 's' && name[25] == 'o' && name[26] == 'n');
    assert(name.index_of_last('.') == Some(22int));
    assert(name.skip(23) =~= "json"@);
    assert(name_stem(name) =~= stem);
    let a = "layout-"@;
    lemma_no_digits(a);
    lemma_found(a, t.year as nat, 4);
    lemma_found(a + y, t.month as nat, 2);
    lemma_found(a + y + mo, t.day as nat, 2);
    lemma_no_digits("-"@);
    Seq::filter_distributes_over_add(a + y + mo + d, "-"@, is_digit());
    lemma_found(a + y + mo + d + "-"@, t.hour as nat, 2);
    lemma_found(a + y + mo + d + "-"@ + h, t.minute as nat, 2);
    lemma_found(a + y + mo + d + "-"@ + h + mi, t.second as nat, 2);
    let digits = stem.filter(is_digit());
    assert(digits =~= y + mo + d + h + mi + s);
    assert(digits.subrange(0, 4) =~= y);
    assert(digits.subrange(4, 6) =~= mo);
    assert(digits.subrange(6, 8) =~= d);
    assert(digits.subrange(8, 10) =~= h);
    assert(digits.subrange(10, 12) =~= mi);
    assert(digits.subrange(12, 14) =~= s);
    lemma_small_powers();
    lemma_fixed(t.year as nat, 4);
    lemma_fixed(t.month as nat, 2);
    lemma_fixed(t.day as nat, 2);
    lemma_fixed(t.hour as nat, 2);
    lemma_fixed(t.minute as nat, 2);
    lemma_fixed(t.second as nat, 2);
}

/// Texts that start alike are ordered by the first character in which they
/// differ, and a text that only goes on where another ends comes behind it.
pub proof fn law_order_of_texts(start: Seq<char>, a: Seq<char>, b: Seq<char>)
    ensures
        text_leq(start, start + a),
        a.len() > 0 ==> !text_leq(start + a, start),
        a.len() > 0 && b.len() > 0 && a[0] < b[0] ==> text_leq(
            start + a,
            start + b,
        ) && !text_leq(start + b, start + a),
{
    let none = Seq::<char>::empty();
    assert(start + none =~= start);
    lemma_same_start(start, none, a);
    lemma_same_start(start, a, none);
    lemma_same_start(start, a, b);
    lemma_same_start(start, b, a);
}

/// The menu offers ten snapshots, or all if there are fewer. They are files of
/// the type "json", the highest name comes first, no file is offered more often
/// than it is there, and one that is not offered has no higher name than any
/// that is.
pub proof fn law_what_is_offered(
    names: Seq<Seq<char>>,
    json: Seq<Seq<char>>,
    n: Seq<char>,
    i: int,
    j: int,
)
    requires
        json == names.filter(|n: Seq<char>| name_extension(n) == Some("json"@)),
    ensures
        offered(names).len() == if json.len() < 10 {
            json.len()
        } else {
            10
        },
        0 <= i < j < offered(names).len() ==> text_leq(offered(names)[j], offered(names)[i]),
        offered(names).to_multiset().count(n) <= json.to_multiset().count(n),
        json.contains(n) && !offered(names).contains(n) ==> offered(names).len() == 10,
        json.contains(n) && !offered(names).contains(n) && 0 <= i < offered(names).len()
            ==> text_leq(n, offered(names)[i]),
{
    broadcast use vstd::seq_lib::group_to_multiset_ensures;

    let p = |n: Seq<char>| name_extension(n) == Some("json"@);
    assert(p =~= is_snapshot());
    assert(json == names.filter(p));
    let leq = later_first();
    let all = json.sort_by(leq);
    let r = offered(names);
    lemma_later_first_is_order();
    json.lemma_sort_by_ensures(leq);
    assert(all.to_multiset().len() == json.to_multiset().len());
    assert(r =~= all.take(r.len() as int));
    if 0 <= i < j < r.len() {
        assert(leq(all[i], all[j]));
    }
    let rest = all.skip(r.len() as int);
    assert(all =~= r + rest);
    vstd::seq_lib::lemma_multiset_commutative(r, rest);
    assert(all.to_multiset().count(n) == r.to_multiset().count(n) + rest.to_multiset().count(n));
    if json.contains(n) && !r.contains(n) {
        assert(all.to_multiset().count(n) > 0);
        assert(all.contains(n));
        let a = choose|a: int| 0 <= a < all.len() && all[a] == n;
        if a < r.len() {
            assert(r[a] == n);
        }
        if 0 <= i < r.len() {
            assert(leq(all[i], all[a]));
        }
    }
}

/// A name with fourteen digits before its extension is shown as a date and a
/// time made of them; every other name is shown without its extension.
pub proof fn law_label_of_a_name(name: Seq<char>)
    ensures
        ({
            let d = name_stem(name).filter(|c: char| '0' <= c && c <= '9');
            let r = label_of(Some(name));
            if d.len() == 14 {
                &&& r.len() == 19
                &&& r[4] == '-' && r[7] == '-' && r[10] == ' ' && r[13] == ':' && r[16] == ':'
                &&& r[0] == d[0] && r[1] == d[1] && r[2] == d[2] && r[3] == d[3]
                &&& r[5] == d[4] && r[6] == d[5]
                &&& r[8] == d[6] && r[9] == d[7]
                &&& r[11] == d[8] && r[12] == d[9]
                &&& r[14] == d[10] && r[15] == d[11]
                &&& r[17] == d[12] && r[18] == d[13]
            } else {
                r == name_stem(name)
            }
        }),
        label_of(None).len() == 1 && label_of(None)[0] == '?',
{
    reveal_strlit("-");
    reveal_strlit(" ");
    reveal_strlit(":");
    reveal_strlit("?");
    let p = |c: char| '0' <= c && c <= '9';
    assert(p =~= is_digit());
}

/// The name of a snapshot holds the year in four digits and the other parts of
/// the time in two, the date before the time of the day.
pub proof fn law_name_of_a_snapshot(t: LocalTime)
    requires
        t.year <= 9999,
        t.month <= 99,
        t.day <= 99,
        t.hour <= 99,
        t.minute <= 99,
        t.second <= 99,
    ensures
        ({
            let n = name_at(t);
            &&& n.len() == 27
            &&& n.subrange(0, 7) == "layout-"@
            &&& numeral_value(n.subrange(7, 11), 10) == t.year
            &&& numeral_value(n.subrange(11, 13), 10) == t.month
            &&& numeral_value(n.subrange(13, 15), 10) == t.day
            &&& n[15] == '-'
            &&& numeral_value(n.subrange(16, 18), 10) == t.hour
            &&& numeral_value(n.subrange(18, 20), 10) == t.minute
            &&& numeral_value(n.subrange(20, 22), 10) == t.second
            &&& n.subrange(22, 27) == ".json"@
        }),
{
    reveal_strlit("layout-");
    reveal_strlit("-");
    reveal_strlit(".json");
    lemma_small_powers();
    lemma_fixed(t.year as nat, 4);
    lemma_fixed(t.month as nat, 2);
    lemma_fixed(t.day as nat, 2);
    lemma_fixed(t.hour as nat, 2);
    lemma_fixed(t.minute as nat, 2);
    lemma_fixed(t.second as nat, 2);
    law_padding_keeps_value(t.year as nat, 10, 4);
    law_padding_keeps_value(t.month as nat, 10, 2);
    law_padding_keeps_value(t.day as nat, 10, 2);
    law_padding_keeps_value(t.hour as nat, 10, 2);
    law_padding_keeps_value(t.minute as nat, 10, 2);
    law_padding_keeps_value(t.second as nat, 10, 2);
    let n = name_at(t);
    assert(n.subrange(0, 7) =~= "layout-"@);
    assert(n.subrange(7, 11) =~= padded(t.year, 4));
    assert(n.subrange(11, 13) =~= padded(t.month, 2));
    assert(n.subrange(13, 15) =~= padded(t.day, 2));
    assert(n.subrange(16, 18) =~= padded(t.hour, 2));
    assert(n.subrange(18, 20) =~= padded(t.minute, 2));
    assert(n.subrange(20, 22) =~= padded(t.second, 2));
    assert(n.subrange(22, 27) =~= ".json"@);
}

} // verus!
