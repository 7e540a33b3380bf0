//! Lists of strings: lookup, selection and copying.

use vstd::prelude::*;
use crate::text::{same_text, texts};

verus! {

broadcast use crate::text::lemma_texts_push;

/// The first index at which `p` holds.
pub open spec fn first_index<T>(s: Seq<T>, p: spec_fn(T) -> bool) -> Option<int>
    decreases s.len(),
{
    if s.len() == 0 {
        None
    } else if p(s[0]) {
        Some(0)
    } else {
        match first_index(s.skip(1), p) {
            Some(i) => Some(i + 1),
            None => None,
        }
    }
}

/// What `first_index` finds is an index where `p` holds, with none before it;
/// it finds nothing exactly when `p` holds nowhere.
pub proof fn lemma_first_index<T>(s: Seq<T>, p: spec_fn(T) -> bool)
    ensures
        match first_index(s, p) {
            Some(i) => 0 <= i < s.len() && p(s[i]) && forall|j: int|
                0 <= j < i ==> !p(#[trigger] s[j]),
            None => forall|j: int| 0 <= j < s.len() ==> !p(#[trigger] s[j]),
        },
    decreases s.len(),
{
    if s.len() > 0 && !p(s[0]) {
        lemma_first_index(s.skip(1), p);
        match first_index(s.skip(1), p) {
            Some(i) => {
                assert(s.skip(1)[i] == s[i + 1]);
                assert forall|j: int| 0 <= j < i + 1 implies !p(#[trigger] s[j]) by {
                    if j > 0 {
                        assert(s.skip(1)[j - 1] == s[j]);
                    }
                }
            },
            None => {
                assert forall|j: int| 0 <= j < s.len() implies !p(#[trigger] s[j]) by {
                    if j > 0 {
                        assert(s.skip(1)[j - 1] == s[j]);
                    }
                }
            },
        }
    }
}

/// An index where `p` holds, with none before it, is the first one.
pub proof fn lemma_is_first<T>(s: Seq<T>, p: spec_fn(T) -> bool, i: int)
    requires
        0 <= i < s.len(),
        p(s[i]),
        forall|j: int| 0 <= j < i ==> !p(#[trigger] s[j]),
    ensures
        first_index(s, p) == Some(i),
{
    lemma_first_index(s, p);
}

/// Where `p` holds nowhere, there is no first index.
pub proof fn lemma_is_nowhere<T>(s: Seq<T>, p: spec_fn(T) -> bool)
    requires
        forall|j: int| 0 <= j < s.len() ==> !p(#[trigger] s[j]),
    ensures
        first_index(s, p) is None,
{
    lemma_first_index(s, p);
}

/// Lists of which the same places satisfy `p` have the same first index.
pub proof fn lemma_same_first<T>(a: Seq<T>, b: Seq<T>, p: spec_fn(T) -> bool)
    requires
        a.len() == b.len(),
        forall|i: int| 0 <= i < a.len() ==> p(#[trigger] a[i]) == p(b[i]),
    ensures
        first_index(a, p) == first_index(b, p),
{
    lemma_first_index(a, p);
    match first_index(a, p) {
        Some(i) => {
            assert forall|j: int| 0 <= j < i implies !p(#[trigger] b[j]) by {
                assert(p(a[j]) == p(b[j]));
            }
            lemma_is_first(b, p, i);
        },
        None => {
            assert forall|j: int| 0 <= j < b.len() implies !p(#[trigger] b[j]) by {
                assert(p(a[j]) == p(b[j]));
            }
            lemma_is_nowhere(b, p);
        },
    }
}

/// Selecting keeps everything if it keeps as many.
pub proof fn lemma_filter_all<T>(s: Seq<T>, p: spec_fn(T) -> bool)
    ensures
        s.filter(p).len() == s.len() ==> s.filter(p) == s,
        (forall|i: int| 0 <= i < s.len() ==> p(#[trigger] s[i])) ==> s.filter(p) == s,
    decreases s.len(),
{
    reveal(Seq::filter);
    if s.len() > 0 {
        let t = s.drop_last();
        lemma_filter_all(t, p);
        t.lemma_filter_len(p);
        assert(t.push(s.last()) =~= s);
        assert forall|i: int| 0 <= i < t.len() && p(s[i]) implies p(#[trigger] t[i]) by {}
    }
}

/// Where the selected elements stood: at places in increasing order.
pub proof fn lemma_filter_places<T>(s: Seq<T>, p: spec_fn(T) -> bool) -> (places: Seq<int>)
    ensures
        places.len() == s.filter(p).len(),
        forall|i: int|
            0 <= i < places.len() ==> 0 <= #[trigger] places[i] < s.len() && s[places[i]]
                == s.filter(p)[i],
        forall|i: int, j: int|
            0 <= i < j < places.len() ==> #[trigger] places[i] < #[trigger] places[j],
    decreases s.len(),
{
    reveal(Seq::filter);
    if s.len() == 0 {
        Seq::empty()
    } else {
        let t = s.drop_last();
        let before = lemma_filter_places(t, p);
        if p(s.last()) {
            before.push(s.len() - 1)
        } else {
            before
        }
    }
}

/// Selecting from one more element selects that element or nothing.
pub proof fn lemma_filter_take<T>(s: Seq<T>, p: spec_fn(T) -> bool, i: int)
    requires
        0 <= i < s.len(),
    ensures
        s.take(i + 1).filter(p) == if p(s[i]) {
            s.take(i).filter(p).push(s[i])
        } else {
            s.take(i).filter(p)
        },
{
    reveal(Seq::filter);
    assert(s.take(i + 1).drop_last() =~= s.take(i));
}

/// The first place of a string in a list.
pub fn position(list: &Vec<String>, s: &str) -> (r: Option<usize>)
    ensures
        match r {
            Some(i) => texts(list@).index_of_first(s@) == Some(i as int),
            None => texts(list@).index_of_first(s@) is None,
        },
{
    let mut i: usize = 0;
    while i < list.len()
        invariant
            i <= list@.len(),
            forall|j: int| 0 <= j < i ==> texts(list@)[j] != s@,
        decreases list@.len() - i,
    {
        if same_text(&list[i], s) {
            proof {
                texts(list@).index_of_first_ensures(s@);
                assert(texts(list@)[i as int] == s@);
            }
            return Some(i);
        }
        i = i + 1;
    }
    proof {
        texts(list@).index_of_first_ensures(s@);
    }
    None
}

/// Whether a string is in a list.
pub fn contains(list: &Vec<String>, s: &str) -> (r: bool)
    ensures
        r == texts(list@).contains(s@),
{
    proof {
        texts(list@).index_of_first_ensures(s@);
    }
    position(list, s).is_some()
}

/// Appends copies of the strings of `more`.
pub fn extend(list: &mut Vec<String>, more: &Vec<String>)
    ensures
        texts(final(list)@) == texts(old(list)@) + texts(more@),
        final(list)@.len() == old(list)@.len() + more@.len(),
{
    let ghost start = texts(list@);
    let mut i: usize = 0;
    while i < more.len()
        invariant
            i <= more@.len(),
            list@.len() == start.len() + i,
            texts(list@) == start + texts(more@).take(i as int),
        decreases more@.len() - i,
    {
        list.push(more[i].clone());
        assert(texts(list@) =~= start + texts(more@).take(i + 1));
        i = i + 1;
    }
    assert(texts(more@).take(more@.len() as int) =~= texts(more@));
}

/// A copy of a list.
pub fn copy_of(list: &Vec<String>) -> (r: Vec<String>)
    ensures
        texts(r@) == texts(list@),
{
    let mut out: Vec<String> = Vec::new();
    extend(&mut out, list);
    assert(texts(out@) =~= texts(list@));
    out
}

/// Whether a string is among `paths`, or, if not `wanted`, is not.
pub open spec fn among(paths: Seq<Seq<char>>, wanted: bool) -> spec_fn(Seq<char>) -> bool {
    |p: Seq<char>| paths.contains(p) == wanted
}

/// The strings from `from` up to `to` that are among `paths`, or, if not
/// `wanted`, that are not.
pub fn select(list: &Vec<String>, from: usize, to: usize, paths: &Vec<String>, wanted: bool) -> (r:
    Vec<String>)
    requires
        from <= to <= list@.len(),
    ensures
        texts(r@) == texts(list@).subrange(from as int, to as int).filter(
            among(texts(paths@), wanted),
        ),
{
    let ghost part = texts(list@).subrange(from as int, to as int);
    let ghost p = among(texts(paths@), wanted);
    let mut out: Vec<String> = Vec::new();
    let mut i: usize = from;
    proof {
        reveal(Seq::filter);
        assert(texts(out@) =~= part.take(0).filter(p));
    }
    while i < to
        invariant
            from <= i <= to <= list@.len(),
            part == texts(list@).subrange(from as int, to as int),
            p == among(texts(paths@), wanted),
            texts(out@) == part.take(i - from).filter(p),
        decreases to - i,
    {
        proof {
            lemma_filter_take(part, p, i - from);
            assert(part[i - from] == list@[i as int]@);
            assert(part.take(i - from + 1) == part.take(i + 1 - from));
        }
        if contains(paths, &list[i]) == wanted {
            out.push(list[i].clone());
        }
        i = i + 1;
    }
    assert(part.take(to - from) =~= part);
    out
}

/// Whether `order` lists all places of `keys`, lower keys first, and places
/// with the same key from left to right.
pub open spec fn is_stable_order(order: Seq<usize>, keys: Seq<u64>) -> bool {
    &&& order.len() == keys.len()
    &&& forall|i: int| 0 <= i < order.len() ==> (#[trigger] order[i]) < keys.len()
    &&& forall|i: int, j: int|
        0 <= i < j < order.len() ==> comes_before(#[trigger] order[i], #[trigger] order[j], keys)
}

/// Whether the place `a` comes before the place `b`.
pub open spec fn comes_before(a: usize, b: usize, keys: Seq<u64>) -> bool {
    keys[a as int] < keys[b as int] || (keys[a as int] == keys[b as int] && a < b)
}

/// The places of `keys` in the order of the keys.
pub fn stable_order(keys: &Vec<u64>) -> (r: Vec<usize>)
    ensures
        is_stable_order(r@, keys@),
{
    let mut order: Vec<usize> = Vec::new();
    let mut n: usize = 0;
    while n < keys.len()
        invariant
            n <= keys@.len(),
            order@.len() == n,
            forall|i: int| 0 <= i < n ==> (#[trigger] order@[i]) < n,
            forall|i: int, j: int|
                0 <= i < j < n ==> comes_before(#[trigger] order@[i], #[trigger] order@[j], keys@),
        decreases keys@.len() - n,
    {
        // Behind every place whose key is not higher.
        let mut at: usize = 0;
        while at < n && keys[order[at]] <= keys[n]
            invariant
                at <= n < keys@.len(),
                order@.len() == n,
                forall|i: int| 0 <= i < n ==> (#[trigger] order@[i]) < n,
                forall|i: int|
                    0 <= i < at ==> keys@[(#[trigger] order@[i]) as int] <= keys@[n as int],
            decreases n - at,
        {
            at = at + 1;
        }
        let ghost before = order@;
        assert forall|i: int| at <= i < n implies keys@[n as int] < keys@[(
        #[trigger] before[i]) as int] by {
            if i > at {
                assert(comes_before(before[at as int], before[i], keys@));
            }
        }
        order.insert(at, n);
        n = n + 1;
    }
    order
}

/// Two lists of the places in the order of the keys are the same list.
pub proof fn law_stable_order_is_unique(a: Seq<usize>, b: Seq<usize>, keys: Seq<u64>)
    requires
        is_stable_order(a, keys),
        is_stable_order(b, keys),
    ensures
        a == b,
{
    lemma_places_occur(a, keys);
    lemma_places_occur(b, keys);
    assert forall|i: int| 0 <= i < a.len() implies a[i] == b[i] by {
        lemma_same_place(a, b, keys, i);
    }
    assert(a =~= b);
}

/// Every place stands in the order.
pub proof fn lemma_places_occur(order: Seq<usize>, keys: Seq<u64>)
    requires
        is_stable_order(order, keys),
    ensures
        forall|k: usize| k < keys.len() ==> #[trigger] order.contains(k),
{
    let n = keys.len();
    let ints = order.map_values(|k: usize| k as int);
    assert(ints.no_duplicates()) by {
        assert forall|i: int, j: int| 0 <= i < j < ints.len() implies ints[i] != ints[j] by {
            assert(comes_before(order[i], order[j], keys));
        }
    }
    ints.unique_seq_to_set();
    let all = vstd::set_lib::set_int_range(0, n as int);
    vstd::set_lib::lemma_int_range(0, n as int);
    assert(ints.to_set().subset_of(all)) by {
        assert forall|x: int| ints.to_set().contains(x) implies all.contains(x) by {
            let i = choose|i: int| 0 <= i < ints.len() && ints[i] == x;
            assert(order[i] < n);
        }
    }
    vstd::set_lib::lemma_subset_equality(ints.to_set(), all);
    assert forall|k: usize| k < n implies #[trigger] order.contains(k) by {
        assert(all.contains(k as int));
        assert(ints.to_set().contains(k as int));
        let i = choose|i: int| 0 <= i < ints.len() && ints[i] == k as int;
        assert(order[i] == k);
    }
}

/// Two orders agree at a place if they agree at all places before it.
proof fn lemma_same_place(a: Seq<usize>, b: Seq<usize>, keys: Seq<u64>, i: int)
    requires
        is_stable_order(a, keys),
        is_stable_order(b, keys),
        forall|k: usize| k < keys.len() ==> #[trigger] a.contains(k),
        forall|k: usize| k < keys.len() ==> #[trigger] b.contains(k),
        0 <= i < a.len(),
    ensures
        a[i] == b[i],
    decreases i,
{
    assert forall|j: int| 0 <= j < i implies a[j] == b[j] by {
        lemma_same_place(a, b, keys, j);
    }
    assert(b.contains(a[i]));
    let j = choose|j: int| 0 <= j < b.len() && b[j] == a[i];
    assert(a.contains(b[i]));
    let k = choose|k: int| 0 <= k < a.len() && a[k] == b[i];
    if a[i] != b[i] {
        // Neither stands earlier, where both orders agree.
        assert(j >= i) by {
            if j < i {
                assert(comes_before(a[j], a[i], keys));
            }
        }
        assert(k >= i) by {
            if k < i {
                assert(comes_before(b[k], b[i], keys));
            }
        }
        assert(comes_before(b[i], b[j], keys));
        assert(comes_before(a[i], a[k], keys));
    }
}

/// In a stable order the keys rise, and places with the same key stand from
/// left to right. Every place is in it, and none twice.
pub proof fn law_stable_order(order: Seq<usize>, keys: Seq<u64>, i: int, j: int)
    requires
        is_stable_order(order, keys),
        0 <= i < j < order.len(),
    ensures
        order.len() == keys.len(),
        order[i] < keys.len() && order[j] < keys.len(),
        order[i] != order[j],
        keys[order[i] as int] <= keys[order[j] as int],
        keys[order[i] as int] == keys[order[j] as int] ==> order[i] < order[j],
        forall|k: usize| k < keys.len() ==> #[trigger] order.contains(k),
{
    assert(comes_before(order[i], order[j], keys));
    lemma_places_occur(order, keys);
}

/// Selecting by `among` keeps what is in the list, or what is not.
pub proof fn law_among(paths: Seq<Seq<char>>, p: Seq<char>)
    ensures
        among(paths, true)(p) <==> exists|i: int| 0 <= i < paths.len() && #[trigger] paths[i] == p,
        among(paths, false)(p) <==> forall|i: int| 0 <= i < paths.len() ==> #[trigger] paths[i] != p,
{
}

} // verus!
