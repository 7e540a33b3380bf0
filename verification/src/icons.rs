//! The pixels of icons: how they are prepared for drawing, how the ghost under
//! the mouse is made of them, and how icons are ordered by color.

use vstd::prelude::*;
use crate::color::Rgb;

verus! {

/// Premultiplied pixels, `size` by `size`, four bytes each: blue, green, red
/// and alpha.
#[derive(Debug)]
pub struct IconPixels {
    pub size: u32,
    pub bgra: Vec<u8>,
}

/// The smallest size at which icons are extracted.
pub const MIN_ICON_PX: u32 = 16;

/// The size at which icons are extracted.
pub fn extraction_size(px: u32) -> (r: u32)
    ensures
        r == if px > MIN_ICON_PX {
            px
        } else {
            MIN_ICON_PX
        },
{
    if px > MIN_ICON_PX {
        px
    } else {
        MIN_ICON_PX
    }
}

/// Whether every whole pixel has no alpha.
pub open spec fn lacks_alpha(bgra: Seq<u8>) -> bool {
    forall|p: int| 0 <= p && 4 * p + 3 < bgra.len() ==> #[trigger] bgra[4 * p + 3] == 0
}

/// A channel multiplied by alpha.
pub open spec fn multiplied(v: u8, alpha: u8) -> u8 {
    (v as int * alpha as int / 255) as u8
}

/// What a byte of the pixels becomes: an icon without alpha is opaque, and
/// every other icon is multiplied by its alpha. Bytes behind the last whole
/// pixel are kept.
pub open spec fn prepared_byte(bgra: Seq<u8>, i: int) -> u8 {
    let pixel = i / 4 * 4;
    if pixel + 3 >= bgra.len() {
        bgra[i]
    } else if lacks_alpha(bgra) {
        if i % 4 == 3 {
            255
        } else {
            bgra[i]
        }
    } else if i % 4 == 3 {
        bgra[i]
    } else {
        multiplied(bgra[i], bgra[pixel + 3])
    }
}

/// The pixels of an icon as they are drawn.
pub open spec fn prepared(bgra: Seq<u8>) -> Seq<u8> {
    Seq::new(bgra.len(), |i: int| prepared_byte(bgra, i))
}

fn alpha_is_missing(bgra: &Vec<u8>) -> (r: bool)
    ensures
        r == lacks_alpha(bgra@),
{
    let mut i: usize = 3;
    while i < bgra.len()
        invariant
            i % 4 == 3,
            forall|p: int|
                0 <= p && 4 * p + 3 < bgra@.len() && 4 * p + 3 < i ==> #[trigger] bgra@[4 * p + 3]
                    == 0,
        decreases bgra@.len() - i,
    {
        if bgra[i] != 0 {
            assert(bgra@[4 * (i as int / 4) + 3] != 0);
            return false;
        }
        if bgra.len() - i <= 4 {
            return true;
        }
        i = i + 4;
    }
    true
}

/// Prepares the pixels that were extracted for drawing.
pub fn prepare(bgra: &Vec<u8>) -> (r: Vec<u8>)
    ensures
        r@ == prepared(bgra@),
{
    let opaque = alpha_is_missing(bgra);
    let mut out: Vec<u8> = Vec::new();
    let mut i: usize = 0;
    while i < bgra.len()
        invariant
            opaque == lacks_alpha(bgra@),
            i <= bgra@.len(),
            out@ == prepared(bgra@).take(i as int),
        decreases bgra@.len() - i,
    {
        let pixel: usize = i / 4 * 4;
        let v = if bgra.len() - pixel <= 3 {
            bgra[i]
        } else if i % 4 == 3 {
            if opaque {
                255
            } else {
                bgra[i]
            }
        } else if opaque {
            bgra[i]
        } else {
            let a: u32 = bgra[pixel + 3] as u32;
            let c: u32 = bgra[i] as u32;
            assert(c * a <= 255 * 255) by (nonlinear_arith)
                requires
                    c <= 255,
                    a <= 255,
            ;
            (c * a / 255) as u8
        };
        out.push(v);
        assert(out@ =~= prepared(bgra@).take(i + 1));
        i = i + 1;
    }
    assert(prepared(bgra@).take(bgra@.len() as int) =~= prepared(bgra@));
    out
}

impl IconPixels {
    /// Whether there are as many bytes as the size says.
    pub open spec fn well_formed(self) -> bool {
        self.bgra@.len() == 4 * self.size * self.size
    }

    /// The icon of pixels that were extracted.
    pub fn from_extracted(size: u32, bgra: &Vec<u8>) -> (r: Self)
        requires
            bgra@.len() == 4 * size * size,
        ensures
            r.size == size,
            r.bgra@ == prepared(bgra@),
            r.well_formed(),
    {
        IconPixels { size, bgra: prepare(bgra) }
    }

    /// The pixels of the ghost that is shown while the icon is dragged: as many
    /// as the icon has.
    pub fn ghost(&self) -> (r: Vec<u8>)
        requires
            self.well_formed(),
        ensures
            r@ == ghost_of(self.bgra@),
            r@.len() == 4 * self.size * self.size,
    {
        ghost_pixels(&self.bgra)
    }
}

/// No channel of a prepared pixel is above its alpha, as drawing with
/// premultiplied alpha requires.
pub proof fn law_prepared_is_premultiplied(bgra: Seq<u8>, i: int)
    requires
        0 <= i,
        i / 4 * 4 + 3 < bgra.len(),
    ensures
        prepared(bgra)[i] <= prepared(bgra)[i / 4 * 4 + 3],
{
    let pixel = i / 4 * 4;
    let v = bgra[i];
    let a = bgra[pixel + 3];
    assert((pixel + 3) / 4 * 4 == pixel);
    assert(0 <= v as int * a as int <= 255 * a as int) by (nonlinear_arith)
        requires
            v <= 255,
            a <= 255,
    ;
    assert(v as int * a as int / 255 <= a as int);
}

/// The pixels of the ghost of an icon: every channel at three fifths.
pub open spec fn ghost_of(bgra: Seq<u8>) -> Seq<u8> {
    Seq::new(bgra.len(), |i: int| (bgra[i] as int * 3 / 5) as u8)
}

/// The pixels of the ghost that is shown while an icon is dragged.
pub fn ghost_pixels(bgra: &Vec<u8>) -> (r: Vec<u8>)
    ensures
        r@ == ghost_of(bgra@),
{
    let mut out: Vec<u8> = Vec::new();
    let mut i: usize = 0;
    while i < bgra.len()
        invariant
            i <= bgra@.len(),
            out@ == ghost_of(bgra@).take(i as int),
        decreases bgra@.len() - i,
    {
        out.push((bgra[i] as u32 * 3 / 5) as u8);
        assert(out@ =~= ghost_of(bgra@).take(i + 1));
        i = i + 1;
    }
    assert(ghost_of(bgra@).take(bgra@.len() as int) =~= ghost_of(bgra@));
    out
}

/// The sum of one byte of every whole pixel: `which` is 0 for blue, 1 for
/// green, 2 for red and 3 for alpha.
pub open spec fn total(bgra: Seq<u8>, which: int) -> nat
    decreases bgra.len(),
{
    if bgra.len() < 4 {
        0
    } else {
        total(bgra.skip(4), which) + bgra[which] as nat
    }
}

/// A channel of the average color, without its alpha.
pub open spec fn average(sum: nat, alpha: nat) -> u8 {
    if sum >= alpha {
        255
    } else {
        (sum * 255 / alpha) as u8
    }
}

/// The average color of an icon; nothing if all of it is transparent.
pub open spec fn average_color(bgra: Seq<u8>) -> Option<Rgb> {
    let alpha = total(bgra, 3);
    if alpha == 0 {
        None
    } else {
        Some(
            Rgb {
                r: average(total(bgra, 2), alpha),
                g: average(total(bgra, 1), alpha),
                b: average(total(bgra, 0), alpha),
            },
        )
    }
}

pub open spec fn highest(c: Rgb) -> u8 {
    if c.r >= c.g && c.r >= c.b {
        c.r
    } else if c.g >= c.b {
        c.g
    } else {
        c.b
    }
}

pub open spec fn lowest(c: Rgb) -> u8 {
    if c.r <= c.g && c.r <= c.b {
        c.r
    } else if c.g <= c.b {
        c.g
    } else {
        c.b
    }
}

/// Below this difference of the channels a color counts as a gray.
pub const GRAY_CHROMA: u8 = 24;

/// The hue of a color, in 1536 steps from red over yellow, green, cyan, blue
/// and magenta back to red.
pub open spec fn hue(c: Rgb) -> int {
    let chroma = highest(c) - lowest(c);
    if highest(c) == c.r {
        if c.g >= c.b {
            (c.g - c.b) * 256 / chroma
        } else {
            (1536 * chroma - (c.b - c.g) * 256) / chroma
        }
    } else if highest(c) == c.g {
        (512 * chroma + (c.b - c.r) * 256) / chroma
    } else {
        (1024 * chroma + (c.r - c.g) * 256) / chroma
    }
}

/// Whether a color counts as a gray.
pub open spec fn is_gray(c: Rgb) -> bool {
    highest(c) - lowest(c) < GRAY_CHROMA
}

/// Where a color stands in the rainbow: colors by their hue, then near-grays
/// from the brightest to the darkest, then icons without any color.
pub open spec fn color_key(c: Option<Rgb>) -> int {
    match c {
        Some(c) => if is_gray(c) {
            1536 + (255 - highest(c))
        } else {
            hue(c)
        },
        None => 1792,
    }
}

proof fn lemma_hue(c: Rgb)
    requires
        !is_gray(c),
    ensures
        0 <= hue(c) < 1536,
{
    let chroma = highest(c) - lowest(c);
    let n = if highest(c) == c.r {
        if c.g >= c.b {
            (c.g - c.b) * 256
        } else {
            1536 * chroma - (c.b - c.g) * 256
        }
    } else if highest(c) == c.g {
        512 * chroma + (c.b - c.r) * 256
    } else {
        1024 * chroma + (c.r - c.g) * 256
    };
    assert(0 <= n < 1536 * chroma);
    assert(0 <= n / chroma < 1536) by (nonlinear_arith)
        requires
            0 <= n < 1536 * chroma,
            chroma > 0,
    ;
}

/// The sums of blue, green, red and alpha over every whole pixel.
fn totals(bgra: &Vec<u8>) -> (r: (u128, u128, u128, u128))
    ensures
        r.0 == total(bgra@, 0),
        r.1 == total(bgra@, 1),
        r.2 == total(bgra@, 2),
        r.3 == total(bgra@, 3),
        r.0 <= 255 * bgra@.len(),
        r.1 <= 255 * bgra@.len(),
        r.2 <= 255 * bgra@.len(),
        r.3 <= 255 * bgra@.len(),
{
    let mut b: u128 = 0;
    let mut g: u128 = 0;
    let mut r: u128 = 0;
    let mut a: u128 = 0;
    let mut i: usize = 0;
    assert(bgra@.skip(0) =~= bgra@);
    while bgra.len() - i >= 4
        invariant
            i <= bgra@.len(),
            b + total(bgra@.skip(i as int), 0) == total(bgra@, 0),
            g + total(bgra@.skip(i as int), 1) == total(bgra@, 1),
            r + total(bgra@.skip(i as int), 2) == total(bgra@, 2),
            a + total(bgra@.skip(i as int), 3) == total(bgra@, 3),
            b <= 255 * i,
            g <= 255 * i,
            r <= 255 * i,
            a <= 255 * i,
        decreases bgra@.len() - i,
    {
        assert(bgra@.skip(i as int).skip(4) =~= bgra@.skip(i + 4));
        b = b + bgra[i] as u128;
        g = g + bgra[i + 1] as u128;
        r = r + bgra[i + 2] as u128;
        a = a + bgra[i + 3] as u128;
        i = i + 4;
    }
    (b, g, r, a)
}

fn average_of(sum: u128, alpha: u128) -> (r: u8)
    requires
        0 < alpha <= 0xFFFF_FFFF_FFFF_FFFF_FFFF,
    ensures
        r == average(sum as nat, alpha as nat),
{
    if sum >= alpha {
        255
    } else {
        assert(sum * 255 / alpha as int <= 255) by (nonlinear_arith)
            requires
                0 <= sum < alpha,
        ;
        (sum * 255 / alpha) as u8
    }
}

fn key_of(c: Rgb) -> (r: u64)
    ensures
        r == color_key(Some(c)),
{
    let high: i64 = (if c.r >= c.g && c.r >= c.b {
        c.r
    } else if c.g >= c.b {
        c.g
    } else {
        c.b
    }) as i64;
    let low: i64 = (if c.r <= c.g && c.r <= c.b {
        c.r
    } else if c.g <= c.b {
        c.g
    } else {
        c.b
    }) as i64;
    let chroma: i64 = high - low;
    if chroma < GRAY_CHROMA as i64 {
        return (1536 + (255 - high)) as u64;
    }
    proof {
        lemma_hue(c);
    }
    let n: i64 = if high == c.r as i64 {
        if c.g >= c.b {
            (c.g as i64 - c.b as i64) * 256
        } else {
            1536 * chroma - (c.b as i64 - c.g as i64) * 256
        }
    } else if high == c.g as i64 {
        512 * chroma + (c.b as i64 - c.r as i64) * 256
    } else {
        1024 * chroma + (c.r as i64 - c.g as i64) * 256
    };
    assert(n >= 0);
    assert(n as int / chroma as int == hue(c));
    (n / chroma) as u64
}

/// Where an icon stands in the rainbow, by the average of its prepared pixels.
/// An icon that could not be extracted stands last.
pub fn rainbow_key(bgra: &Option<Vec<u8>>) -> (r: u64)
    ensures
        r == match bgra {
            Some(px) => color_key(average_color(px@)),
            None => color_key(None),
        },
{
    match bgra {
        Some(px) => {
            let (b, g, r, a) = totals(px);
            assert(px@.len() == px.len() <= usize::MAX);
            if a == 0 {
                return 1792;
            }
            key_of(Rgb { r: average_of(r, a), g: average_of(g, a), b: average_of(b, a) })
        },
        None => 1792,
    }
}

/// Near-grays stand behind every other color, and brighter ones before darker
/// ones.
pub proof fn law_grays_come_last(gray: Rgb, other: Rgb)
    requires
        is_gray(gray),
    ensures
        !is_gray(other) ==> color_key(Some(other)) < color_key(Some(gray)),
        is_gray(other) && highest(other) > highest(gray) ==> color_key(Some(other)) < color_key(
            Some(gray),
        ),
        color_key(Some(gray)) < color_key(None),
{
    if !is_gray(other) {
        lemma_hue(other);
    }
}

/// A channel is multiplied by alpha as a fraction of 255, rounded down.
pub proof fn law_multiplying(v: u8, alpha: u8)
    ensures
        255 * multiplied(v, alpha) <= v * alpha < 255 * (multiplied(v, alpha) + 1),
        multiplied(v, 255) == v,
        multiplied(v, 0) == 0,
{
    let n = v as int * alpha as int;
    assert(0 <= n <= 255 * 255) by (nonlinear_arith)
        requires
            n == v as int * alpha as int,
            v <= 255,
            alpha <= 255,
    ;
    assert(v as int * 255 / 255 == v);
    assert(v as int * 0 == 0);
}

/// Where some pixel has alpha, every pixel keeps its alpha and its colors are
/// multiplied by it. Where none has, every pixel keeps its colors and becomes
/// opaque. Bytes that are no whole pixel stay.
pub proof fn law_preparing(bgra: Seq<u8>, p: int, q: int, c: int)
    requires
        0 <= p,
        4 * p + 3 < bgra.len(),
        0 <= q,
        4 * q + 3 < bgra.len(),
        0 <= c < 3,
    ensures
        prepared(bgra).len() == bgra.len(),
        bgra[4 * q + 3] != 0 ==> prepared(bgra)[4 * p + 3] == bgra[4 * p + 3] && prepared(bgra)[4 * p
            + c] == multiplied(bgra[4 * p + c], bgra[4 * p + 3]),
        (forall|k: int| 0 <= k && 4 * k + 3 < bgra.len() ==> #[trigger] bgra[4 * k + 3] == 0)
            ==> prepared(bgra)[4 * p + 3] == 255 && prepared(bgra)[4 * p + c] == bgra[4 * p + c],
        forall|i: int|
            bgra.len() - bgra.len() % 4 <= i < bgra.len() ==> #[trigger] prepared(bgra)[i]
                == bgra[i],
{
    assert((4 * p + 3) / 4 == p && (4 * p + 3) % 4 == 3);
    assert((4 * p + c) / 4 == p && (4 * p + c) % 4 == c);
    assert forall|i: int| bgra.len() - bgra.len() % 4 <= i < bgra.len() implies #[trigger] prepared(
        bgra,
    )[i] == bgra[i] by {
        assert(i / 4 * 4 + 3 >= bgra.len());
    }
}

/// The ghost of an icon has every byte at three fifths, rounded down.
pub proof fn law_ghost(bgra: Seq<u8>, i: int)
    requires
        0 <= i < bgra.len(),
    ensures
        ghost_of(bgra).len() == bgra.len(),
        5 * ghost_of(bgra)[i] <= 3 * bgra[i] < 5 * (ghost_of(bgra)[i] + 1),
{
}

/// One more pixel in front adds its bytes to the sums, each to the sum of its
/// kind, and fewer bytes than a pixel add nothing.
pub proof fn law_sums(b: u8, g: u8, r: u8, a: u8, rest: Seq<u8>)
    ensures
        total(seq![b, g, r, a] + rest, 0) == b + total(rest, 0),
        total(seq![b, g, r, a] + rest, 1) == g + total(rest, 1),
        total(seq![b, g, r, a] + rest, 2) == r + total(rest, 2),
        total(seq![b, g, r, a] + rest, 3) == a + total(rest, 3),
        rest.len() < 4 ==> total(rest, 0) == 0 && total(rest, 1) == 0 && total(rest, 2) == 0
            && total(rest, 3) == 0,
{
    let all = seq![b, g, r, a] + rest;
    assert(all.skip(4) =~= rest);
}

/// The average color has each channel's sum as a fraction of the sum of alpha,
/// rounded down, and is never above 255. Without any alpha there is none.
pub proof fn law_average(bgra: Seq<u8>, sum: nat, alpha: nat)
    requires
        alpha > 0,
    ensures
        sum < alpha ==> alpha * average(sum, alpha) <= sum * 255 < alpha * (average(sum, alpha) + 1),
        sum >= alpha ==> average(sum, alpha) == 255,
        total(bgra, 3) == 0 ==> average_color(bgra) is None,
        total(bgra, 3) > 0 ==> average_color(bgra) == Some(
            Rgb {
                r: average(total(bgra, 2), total(bgra, 3)),
                g: average(total(bgra, 1), total(bgra, 3)),
                b: average(total(bgra, 0), total(bgra, 3)),
            },
        ),
{
    if sum < alpha {
        let n = sum * 255;
        assert(0 <= n / alpha <= 255 && alpha * (n / alpha) <= n < alpha * (n / alpha + 1))
            by (nonlinear_arith)
            requires
                0 <= sum < alpha,
                n == sum * 255,
        ;
    }
}

/// The highest and the lowest channel are channels of the color, and no channel
/// lies beyond them.
pub proof fn law_highest_and_lowest(c: Rgb)
    ensures
        highest(c) >= c.r && highest(c) >= c.g && highest(c) >= c.b,
        highest(c) == c.r || highest(c) == c.g || highest(c) == c.b,
        lowest(c) <= c.r && lowest(c) <= c.g && lowest(c) <= c.b,
        lowest(c) == c.r || lowest(c) == c.g || lowest(c) == c.b,
        is_gray(c) <==> c.r - c.g < 24 && c.g - c.r < 24 && c.g - c.b < 24 && c.b - c.g < 24 && c.r
            - c.b < 24 && c.b - c.r < 24,
{
}

/// The hue rises evenly from red at 0 over yellow at 256, green at 512, cyan at
/// 768, blue at 1024 and magenta at 1280 back to red at 1536: by how far the
/// middle channel is from the lowest one, as a fraction of how far the highest
/// is.
pub proof fn law_hue(c: Rgb, hi: int, lo: int)
    requires
        hi > lo,
    ensures
        hi == c.r && lo == c.b && lo <= c.g <= hi ==> (hi - lo) * hue(c) <= 256 * (c.g - lo) < (hi
            - lo) * (hue(c) + 1),
        hi == c.g && lo == c.b && lo <= c.r < hi ==> (hi - lo) * (hue(c) - 512) <= 256 * (lo - c.r)
            < (hi - lo) * (hue(c) - 511),
        hi == c.g && lo == c.r && lo <= c.b <= hi ==> (hi - lo) * (hue(c) - 512) <= 256 * (c.b - lo)
            < (hi - lo) * (hue(c) - 511),
        hi == c.b && lo == c.r && lo <= c.g < hi ==> (hi - lo) * (hue(c) - 1024) <= 256 * (lo - c.g)
            < (hi - lo) * (hue(c) - 1023),
        hi == c.b && lo == c.g && lo <= c.r < hi ==> (hi - lo) * (hue(c) - 1024) <= 256 * (c.r - lo)
            < (hi - lo) * (hue(c) - 1023),
        hi == c.r && lo == c.g && lo < c.b <= hi ==> (hi - lo) * (hue(c) - 1536) <= 256 * (lo - c.b)
            < (hi - lo) * (hue(c) - 1535),
{
    let d = hi - lo;
    if hi == c.r && lo == c.b && lo <= c.g <= hi {
        lemma_quotient((c.g - lo) * 256, d, 0);
    }
    if hi == c.g && lo == c.b && lo <= c.r < hi {
        lemma_quotient((lo - c.r) * 256, d, 512);
    }
    if hi == c.g && lo == c.r && lo <= c.b <= hi {
        lemma_quotient((c.b - lo) * 256, d, 512);
    }
    if hi == c.b && lo == c.r && lo <= c.g < hi {
        lemma_quotient((lo - c.g) * 256, d, 1024);
    }
    if hi == c.b && lo == c.g && lo <= c.r < hi {
        lemma_quotient((c.r - lo) * 256, d, 1024);
    }
    if hi == c.r && lo == c.g && lo < c.b <= hi {
        lemma_quotient((lo - c.b) * 256, d, 1536);
    }
}

proof fn lemma_quotient(n: int, d: int, k: int)
    requires
        d > 0,
    ensures
        d * ((k * d + n) / d - k) <= n < d * ((k * d + n) / d - k + 1),
{
    assert(d * ((k * d + n) / d - k) <= n < d * ((k * d + n) / d - k + 1)) by (nonlinear_arith)
        requires
            d > 0,
    ;
}

/// Colors stand at their hue, near-grays behind them from white to black, and
/// what has no color behind those.
pub proof fn law_places_in_the_rainbow(c: Rgb)
    ensures
        !is_gray(c) ==> color_key(Some(c)) == hue(c) && 0 <= color_key(Some(c)) < 1536,
        is_gray(c) ==> color_key(Some(c)) == 1536 + 255 - highest(c),
        color_key(None) == 1536 + 256,
{
    if !is_gray(c) {
        lemma_hue(c);
    }
}

/// An icon has four bytes for each of its pixels, and no more.
pub proof fn law_bytes_of_an_icon(icon: IconPixels)
    ensures
        icon.well_formed() <==> icon.bgra@.len() == icon.size * icon.size * 4,
{
    let n = icon.size as int;
    assert(4 * n * n == n * n * 4) by (nonlinear_arith);
}

} // verus!
