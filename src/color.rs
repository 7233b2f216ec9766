use vstd::prelude::*;

verus! {

/// A pixel: red, green, blue and alpha channels of eight bits each.
#[derive(Clone, Copy, Debug, PartialEq, Eq)]
pub struct Rgba {
    pub r: u8,
    pub g: u8,
    pub b: u8,
    pub a: u8,
}

/// The glyph given to a pixel whose alpha lies below the opacity threshold.
pub const TRANSPARENT_GLYPH: char = '\u{25AA}';

/// Pixels with an alpha below this value count as transparent.
pub const OPACITY_THRESHOLD: u8 = 127;

/// Number of entries in the palette.
pub const PALETTE_LEN: usize = 9;

/// The palette, in declaration order: each glyph with its reference colour.
pub open spec fn palette(i: int) -> (char, Rgba) {
    if i == 0 {
        ('\u{1F7E6}', Rgba { r: 0x5d, g: 0xad, b: 0xec, a: 255 })
    } else if i == 1 {
        ('\u{1F7EA}', Rgba { r: 0xaa, g: 0x8e, b: 0xd6, a: 255 })
    } else if i == 2 {
        ('\u{1F7E7}', Rgba { r: 0xff, g: 0xac, b: 0x33, a: 255 })
    } else if i == 3 {
        ('\u{1F7EB}', Rgba { r: 0x7c, g: 0x53, b: 0x3e, a: 255 })
    } else if i == 4 {
        ('\u{1F7E5}', Rgba { r: 0xbe, g: 0x19, b: 0x31, a: 255 })
    } else if i == 5 {
        ('\u{1F7E8}', Rgba { r: 0xfd, g: 0xcb, b: 0x58, a: 255 })
    } else if i == 6 {
        ('\u{1F7E9}', Rgba { r: 0x78, g: 0xb1, b: 0x59, a: 255 })
    } else if i == 7 {
        ('\u{2B1C}', Rgba { r: 0xe6, g: 0xe7, b: 0xe8, a: 255 })
    } else {
        ('\u{2B1B}', Rgba { r: 0x29, g: 0x2f, b: 0x33, a: 255 })
    }
}

pub open spec fn palette_glyph(i: int) -> char {
    palette(i).0
}

pub open spec fn palette_color(i: int) -> Rgba {
    palette(i).1
}

fn palette_entry(i: usize) -> (e: (char, Rgba))
    requires
        i < PALETTE_LEN,
    ensures
        e == palette(i as int),
{
    match i {
        0 => ('\u{1F7E6}', Rgba { r: 0x5d, g: 0xad, b: 0xec, a: 255 }),
        1 => ('\u{1F7EA}', Rgba { r: 0xaa, g: 0x8e, b: 0xd6, a: 255 }),
        2 => ('\u{1F7E7}', Rgba { r: 0xff, g: 0xac, b: 0x33, a: 255 }),
        3 => ('\u{1F7EB}', Rgba { r: 0x7c, g: 0x53, b: 0x3e, a: 255 }),
        4 => ('\u{1F7E5}', Rgba { r: 0xbe, g: 0x19, b: 0x31, a: 255 }),
        5 => ('\u{1F7E8}', Rgba { r: 0xfd, g: 0xcb, b: 0x58, a: 255 }),
        6 => ('\u{1F7E9}', Rgba { r: 0x78, g: 0xb1, b: 0x59, a: 255 }),
        7 => ('\u{2B1C}', Rgba { r: 0xe6, g: 0xe7, b: 0xe8, a: 255 }),
        _ => ('\u{2B1B}', Rgba { r: 0x29, g: 0x2f, b: 0x33, a: 255 }),
    }
}

// Hue, saturation and value are held as exact fractions, and distances are
// compared by cross-multiplying numerators and denominators.

/// The largest channel of red, green and blue.
pub open spec fn value(p: Rgba) -> int {
    if p.r >= p.g && p.r >= p.b {
        p.r as int
    } else if p.g >= p.b {
        p.g as int
    } else {
        p.b as int
    }
}

/// The smallest channel of red, green and blue.
pub open spec fn min_channel(p: Rgba) -> int {
    if p.r <= p.g && p.r <= p.b {
        p.r as int
    } else if p.g <= p.b {
        p.g as int
    } else {
        p.b as int
    }
}

pub open spec fn chroma(p: Rgba) -> int {
    value(p) - min_channel(p)
}

/// Numerator of the hue in degrees; the denominator is `hue_den`.
/// The hue lies in [-60, 300): a red-dominant colour with more blue than green
/// keeps a negative hue, it is not wrapped round to the top of the circle.
pub open spec fn hue_num(p: Rgba) -> int {
    let c = chroma(p);
    let v = value(p);
    if c == 0 {
        0
    } else if v == p.r {
        60 * (p.g - p.b)
    } else if v == p.g {
        60 * (p.b - p.r) + 120 * c
    } else {
        60 * (p.r - p.g) + 240 * c
    }
}

pub open spec fn hue_den(p: Rgba) -> int {
    if chroma(p) == 0 { 1 } else { chroma(p) }
}

/// Numerator of the saturation (chroma over value); the denominator is `sat_den`.
pub open spec fn sat_num(p: Rgba) -> int {
    if value(p) == 0 { 0 } else { chroma(p) }
}

pub open spec fn sat_den(p: Rgba) -> int {
    if value(p) == 0 { 1 } else { value(p) }
}

/// Squared Euclidean distance between (h1/hd1, s1/sd1, v1) and (h2/hd2, s2/sd2, v2),
/// as the numerator of a fraction whose denominator is `frac_dist_den`.
pub open spec fn frac_dist_num(
    h1: int, hd1: int, s1: int, sd1: int, v1: int,
    h2: int, hd2: int, s2: int, sd2: int, v2: int,
) -> int {
    let dh = h1 * hd2 - h2 * hd1;
    let ds = s1 * sd2 - s2 * sd1;
    let dv = v1 - v2;
    let hh = hd1 * hd2;
    let ss = sd1 * sd2;
    dh * dh * (ss * ss) + ds * ds * (hh * hh) + dv * dv * ((hh * ss) * (hh * ss))
}

pub open spec fn frac_dist_den(hd1: int, sd1: int, hd2: int, sd2: int) -> int {
    (hd1 * hd2 * (sd1 * sd2)) * (hd1 * hd2 * (sd1 * sd2))
}

/// Numerator of the squared HSV distance between two colours.
pub open spec fn dist_num(p: Rgba, q: Rgba) -> int {
    frac_dist_num(
        hue_num(p), hue_den(p), sat_num(p), sat_den(p), value(p),
        hue_num(q), hue_den(q), sat_num(q), sat_den(q), value(q),
    )
}

/// Denominator of the squared HSV distance between two colours; always positive.
pub open spec fn dist_den(p: Rgba, q: Rgba) -> int {
    frac_dist_den(hue_den(p), sat_den(p), hue_den(q), sat_den(q))
}

/// The colour `a` lies strictly closer to `p` than the colour `b` does.
pub open spec fn closer(p: Rgba, a: Rgba, b: Rgba) -> bool {
    dist_num(p, a) * dist_den(p, b) < dist_num(p, b) * dist_den(p, a)
}

/// Index of the palette entry nearest to `p` among the first `n`, the first one on a tie.
pub open spec fn nearest_upto(p: Rgba, n: int) -> int
    decreases n,
{
    if n <= 1 {
        0
    } else {
        let k = nearest_upto(p, n - 1);
        if closer(p, palette_color(n - 1), palette_color(k)) {
            n - 1
        } else {
            k
        }
    }
}

/// Index of the palette entry nearest to `p`, the first one on a tie.
pub open spec fn nearest(p: Rgba) -> int {
    nearest_upto(p, PALETTE_LEN as int)
}

/// The glyph that stands for a pixel.
pub open spec fn glyph_of(p: Rgba) -> char {
    if p.a < OPACITY_THRESHOLD {
        TRANSPARENT_GLYPH
    } else {
        palette_glyph(nearest(p))
    }
}

/// A colour's hue, saturation and value as held by the executable code.
struct Hsv {
    hue_num: i64,
    hue_den: i64,
    sat_num: i64,
    sat_den: i64,
    value: i64,
}

impl Hsv {
    spec fn describes(&self, p: Rgba) -> bool {
        &&& self.hue_num == hue_num(p)
        &&& self.hue_den == hue_den(p)
        &&& self.sat_num == sat_num(p)
        &&& self.sat_den == sat_den(p)
        &&& self.value == value(p)
    }

    spec fn in_range(&self) -> bool {
        &&& 1 <= self.hue_den <= 255
        &&& -300 * self.hue_den <= self.hue_num <= 300 * self.hue_den
        &&& 1 <= self.sat_den <= 255
        &&& 0 <= self.sat_num <= self.sat_den
        &&& 0 <= self.value <= 255
    }
}

fn to_hsv(p: Rgba) -> (h: Hsv)
    ensures
        h.describes(p),
        h.in_range(),
{
    let (r, g, b) = (p.r as i64, p.g as i64, p.b as i64);
    let v: i64 = if r >= g && r >= b {
        r
    } else if g >= b {
        g
    } else {
        b
    };
    let m: i64 = if r <= g && r <= b {
        r
    } else if g <= b {
        g
    } else {
        b
    };
    let c: i64 = v - m;
    let hue_num: i64 = if c == 0 {
        0
    } else if v == r {
        60 * (g - b)
    } else if v == g {
        60 * (b - r) + 120 * c
    } else {
        60 * (r - g) + 240 * c
    };
    let hue_den: i64 = if c == 0 { 1 } else { c };
    let (sat_num, sat_den): (i64, i64) = if v == 0 { (0, 1) } else { (c, v) };
    Hsv { hue_num, hue_den, sat_num, sat_den, value: v }
}

proof fn lemma_square_bound(x: int, bound: int)
    requires
        -bound <= x <= bound,
    ensures
        0 <= x * x <= bound * bound,
{
    assert(0 <= x * x <= bound * bound) by (nonlinear_arith)
        requires -bound <= x <= bound;
}

proof fn lemma_product_bound(x: int, y: int, bx: int, by_: int)
    requires
        0 <= x <= bx,
        0 <= y <= by_,
    ensures
        0 <= x * y <= bx * by_,
{
    assert(0 <= x * y <= bx * by_) by (nonlinear_arith)
        requires 0 <= x <= bx, 0 <= y <= by_;
}

/// The numerator of the squared distance between `p` and `q`, over the
/// denominator `(p.hue_den * p.sat_den * q.hue_den * q.sat_den)^2`.
fn distance_num(p: &Hsv, q: &Hsv) -> (n: i128)
    requires
        p.in_range(),
        q.in_range(),
    ensures
        n == frac_dist_num(
            p.hue_num as int, p.hue_den as int, p.sat_num as int, p.sat_den as int, p.value as int,
            q.hue_num as int, q.hue_den as int, q.sat_num as int, q.sat_den as int, q.value as int,
        ),
        0 <= n <= 8_000_000_000_000_000_000_000_000,
{
    let (h1, hd1, s1, sd1, v1) = (p.hue_num as i128, p.hue_den as i128, p.sat_num as i128, p.sat_den as i128, p.value as i128);
    let (h2, hd2, s2, sd2, v2) = (q.hue_num as i128, q.hue_den as i128, q.sat_num as i128, q.sat_den as i128, q.value as i128);
    proof {
        assert(-76500 * 255 <= h1 * hd2 <= 76500 * 255) by (nonlinear_arith)
            requires -300 * hd1 <= h1 <= 300 * hd1, 1 <= hd1 <= 255, 1 <= hd2 <= 255;
        assert(-76500 * 255 <= h2 * hd1 <= 76500 * 255) by (nonlinear_arith)
            requires -300 * hd2 <= h2 <= 300 * hd2, 1 <= hd1 <= 255, 1 <= hd2 <= 255;
        assert(0 <= s1 * sd2 <= 65025) by (nonlinear_arith)
            requires 0 <= s1 <= sd1, 1 <= sd1 <= 255, 1 <= sd2 <= 255;
        assert(0 <= s2 * sd1 <= 65025) by (nonlinear_arith)
            requires 0 <= s2 <= sd2, 1 <= sd1 <= 255, 1 <= sd2 <= 255;
        lemma_product_bound(hd1 as int, hd2 as int, 255, 255);
        lemma_product_bound(sd1 as int, sd2 as int, 255, 255);
    }
    let dh: i128 = h1 * hd2 - h2 * hd1;
    let ds: i128 = s1 * sd2 - s2 * sd1;
    let dv: i128 = v1 - v2;
    let hh: i128 = hd1 * hd2;
    let ss: i128 = sd1 * sd2;
    proof {
        lemma_square_bound(dh as int, 39_015_000);
        lemma_square_bound(ds as int, 65025);
        lemma_square_bound(dv as int, 255);
        lemma_product_bound(hh as int, ss as int, 65025, 65025);
        lemma_square_bound(hh as int, 65025);
        lemma_square_bound(ss as int, 65025);
    }
    let hs: i128 = hh * ss;
    proof {
        lemma_square_bound(hs as int, (65025 * 65025) as int);
        lemma_product_bound(dh * dh, ss * ss, (39_015_000 * 39_015_000) as int, (65025 * 65025) as int);
        lemma_product_bound(ds * ds, hh * hh, (65025 * 65025) as int, (65025 * 65025) as int);
        lemma_product_bound(dv * dv, hs * hs, (255 * 255) as int, ((65025 * 65025) * (65025 * 65025)) as int);
    }
    dh * dh * (ss * ss) + ds * ds * (hh * hh) + dv * dv * (hs * hs)
}

/// The part of the distance's denominator that belongs to the reference colour `q`.
fn reference_den(q: &Hsv) -> (d: i128)
    requires
        q.in_range(),
    ensures
        d == (q.hue_den * q.sat_den) * (q.hue_den * q.sat_den),
        1 <= d <= 65025 * 65025,
{
    proof {
        assert(1 <= q.hue_den * q.sat_den <= 65025) by (nonlinear_arith)
            requires 1 <= q.hue_den <= 255, 1 <= q.sat_den <= 255;
    }
    let hs: i128 = q.hue_den as i128 * q.sat_den as i128;
    proof {
        assert(1 <= hs * hs <= 65025 * 65025) by (nonlinear_arith)
            requires 1 <= hs <= 65025;
    }
    hs * hs
}

/// The part of the distance's denominator that belongs to the colour `q`.
spec fn own_den(q: Rgba) -> int {
    (hue_den(q) * sat_den(q)) * (hue_den(q) * sat_den(q))
}

proof fn lemma_dens_positive(p: Rgba)
    ensures
        1 <= hue_den(p) <= 255,
        1 <= sat_den(p) <= 255,
        -300 * hue_den(p) <= hue_num(p) <= 300 * hue_den(p),
        0 <= sat_num(p) <= sat_den(p),
        0 <= value(p) <= 255,
        own_den(p) >= 1,
{
    assert(own_den(p) >= 1) by (nonlinear_arith)
        requires
            own_den(p) == (hue_den(p) * sat_den(p)) * (hue_den(p) * sat_den(p)),
            1 <= hue_den(p),
            1 <= sat_den(p),
    ;
}

proof fn lemma_dist_den_split(p: Rgba, q: Rgba)
    ensures
        dist_den(p, q) == own_den(p) * own_den(q),
        dist_den(p, q) >= 1,
{
    lemma_dens_positive(p);
    lemma_dens_positive(q);
    let (a, b, c, d) = (hue_den(p), sat_den(p), hue_den(q), sat_den(q));
    assert((a * c * (b * d)) * (a * c * (b * d)) == ((a * b) * (a * b)) * ((c * d) * (c * d)))
        by (nonlinear_arith);
    assert(((a * b) * (a * b)) * ((c * d) * (c * d)) >= 1) by (nonlinear_arith)
        requires ((a * b) * (a * b)) >= 1, ((c * d) * (c * d)) >= 1;
}

/// For a fixed pixel the pixel's own part of the denominators cancels out.
proof fn lemma_closer_by_own_den(p: Rgba, a: Rgba, b: Rgba)
    ensures
        closer(p, a, b) <==> dist_num(p, a) * own_den(b) < dist_num(p, b) * own_den(a),
{
    lemma_dist_den_split(p, a);
    lemma_dist_den_split(p, b);
    lemma_dens_positive(p);
    let (na, nb, qa, qb, pp) = (dist_num(p, a), dist_num(p, b), own_den(a), own_den(b), own_den(p));
    assert(na * (pp * qb) < nb * (pp * qa) <==> na * qb < nb * qa) by (nonlinear_arith)
        requires pp >= 1;
}

proof fn lemma_frac_lt_le(a: int, da: int, b: int, db: int, c: int, dc: int)
    requires
        da > 0,
        db > 0,
        dc > 0,
        a * db < b * da,
        b * dc <= c * db,
    ensures
        a * dc < c * da,
{
    assert(a * db * dc < b * da * dc) by (nonlinear_arith)
        requires a * db < b * da, dc > 0;
    assert(b * dc * da <= c * db * da) by (nonlinear_arith)
        requires b * dc <= c * db, da > 0;
    assert(a * dc < c * da) by (nonlinear_arith)
        requires a * db * dc < b * da * dc, b * dc * da <= c * db * da, db > 0;
}

/// Strictly closer, then no farther, gives strictly closer.
proof fn lemma_closer_then_not_farther(p: Rgba, a: Rgba, b: Rgba, c: Rgba)
    requires
        closer(p, a, b),
        !closer(p, c, b),
    ensures
        closer(p, a, c),
{
    lemma_dist_den_split(p, a);
    lemma_dist_den_split(p, b);
    lemma_dist_den_split(p, c);
    lemma_frac_lt_le(
        dist_num(p, a), dist_den(p, a), dist_num(p, b), dist_den(p, b), dist_num(p, c), dist_den(p, c),
    );
}

proof fn lemma_nearest_upto(p: Rgba, n: int)
    requires
        1 <= n <= PALETTE_LEN,
    ensures
        0 <= nearest_upto(p, n) < n,
        forall|j: int| 0 <= j < n ==> !closer(p, #[trigger] palette_color(j), palette_color(nearest_upto(p, n))),
        forall|j: int| 0 <= j < nearest_upto(p, n) ==> closer(p, palette_color(nearest_upto(p, n)), #[trigger] palette_color(j)),
    decreases n,
{
    if n > 1 {
        lemma_nearest_upto(p, n - 1);
        let k = nearest_upto(p, n - 1);
        if closer(p, palette_color(n - 1), palette_color(k)) {
            assert forall|j: int| 0 <= j < n - 1 implies closer(p, palette_color(n - 1), #[trigger] palette_color(j)) by {
                lemma_closer_then_not_farther(p, palette_color(n - 1), palette_color(k), palette_color(j));
            }
        }
    }
}

/// The glyph chosen for an opaque pixel belongs to a palette entry at least
/// as close to the pixel, in squared HSV distance, as every other entry, and
/// strictly closer than every entry declared before it.
pub proof fn lemma_nearest_is_first_minimum(p: Rgba)
    ensures
        0 <= nearest(p) < PALETTE_LEN,
        forall|j: int| 0 <= j < PALETTE_LEN ==> !closer(p, #[trigger] palette_color(j), palette_color(nearest(p))),
        forall|j: int| 0 <= j < nearest(p) ==> closer(p, palette_color(nearest(p)), #[trigger] palette_color(j)),
{
    lemma_nearest_upto(p, PALETTE_LEN as int);
}

proof fn lemma_distinct_values_apart(p: Rgba, q: Rgba)
    requires
        value(p) != value(q),
    ensures
        dist_num(p, q) > 0,
{
    lemma_dens_positive(p);
    lemma_dens_positive(q);
    let (h1, hd1, s1, sd1, v1) = (hue_num(p), hue_den(p), sat_num(p), sat_den(p), value(p));
    let (h2, hd2, s2, sd2, v2) = (hue_num(q), hue_den(q), sat_num(q), sat_den(q), value(q));
    let dh = h1 * hd2 - h2 * hd1;
    let ds = s1 * sd2 - s2 * sd1;
    let dv = v1 - v2;
    let hh = hd1 * hd2;
    let ss = sd1 * sd2;
    assert(hh * ss != 0) by (nonlinear_arith)
        requires hd1 >= 1, hd2 >= 1, sd1 >= 1, sd2 >= 1, hh == hd1 * hd2, ss == sd1 * sd2;
    assert(dh * dh * (ss * ss) + ds * ds * (hh * hh) + dv * dv * ((hh * ss) * (hh * ss)) > 0)
        by (nonlinear_arith)
        requires dv != 0, hh * ss != 0;
}

proof fn lemma_zero_distance(h: int, hd: int, s: int, sd: int, v: int)
    ensures
        frac_dist_num(h, hd, s, sd, v, h, hd, s, sd, v) == 0,
{
    let hh = hd * hd;
    let ss = sd * sd;
    let dh = h * hd - h * hd;
    let ds = s * sd - s * sd;
    assert(dh * dh * (ss * ss) == 0) by (nonlinear_arith)
        requires dh == 0;
    assert(ds * ds * (hh * hh) == 0) by (nonlinear_arith)
        requires ds == 0;
    assert((v - v) * (v - v) * ((hh * ss) * (hh * ss)) == 0) by (nonlinear_arith);
}

/// An opaque pixel of exactly a palette entry's reference colour gets that
/// entry's glyph.
pub proof fn lemma_palette_color_gets_its_glyph(i: int)
    requires
        0 <= i < PALETTE_LEN,
    ensures
        glyph_of(palette_color(i)) == palette_glyph(i),
{
    let p = palette_color(i);
    lemma_nearest_is_first_minimum(p);
    let k = nearest(p);
    if k != i {
        assert(value(palette_color(k)) != value(p)) by {
            assert(value(palette_color(0)) == 0xec);
            assert(value(palette_color(1)) == 0xd6);
            assert(value(palette_color(2)) == 0xff);
            assert(value(palette_color(3)) == 0x7c);
            assert(value(palette_color(4)) == 0xbe);
            assert(value(palette_color(5)) == 0xfd);
            assert(value(palette_color(6)) == 0xb1);
            assert(value(palette_color(7)) == 0xe8);
            assert(value(palette_color(8)) == 0x33);
        }
        lemma_distinct_values_apart(p, palette_color(k));
        lemma_dist_den_split(p, p);
        let (h, hd, sn, sd, v) = (hue_num(p), hue_den(p), sat_num(p), sat_den(p), value(p));
        lemma_zero_distance(h, hd, sn, sd, v);
        assert(closer(p, p, palette_color(k))) by (nonlinear_arith)
            requires
                dist_num(p, p) == 0,
                dist_num(p, palette_color(k)) > 0,
                dist_den(p, p) >= 1,
                closer(p, p, palette_color(k)) == (dist_num(p, p) * dist_den(p, palette_color(k))
                    < dist_num(p, palette_color(k)) * dist_den(p, p)),
        ;
    }
}

/// Gives the glyph for the pixel at column `x` and row `y`, together with
/// those coordinates: the transparent glyph when the alpha lies below the
/// opacity threshold, else the glyph of the palette entry nearest in squared
/// hue/saturation/value distance, the first such entry on a tie.
pub fn pixel_to_emoji(x: u32, y: u32, pixel: Rgba) -> (r: (u32, u32, char))
    ensures
        r == (x, y, glyph_of(pixel)),
        pixel.a < OPACITY_THRESHOLD ==> r.2 == TRANSPARENT_GLYPH,
{
    if pixel.a < OPACITY_THRESHOLD {
        return (x, y, TRANSPARENT_GLYPH);
    }
    let hp = to_hsv(pixel);
    let (first_glyph, first_color) = palette_entry(0);
    let hq = to_hsv(first_color);
    let mut best_num = distance_num(&hp, &hq);
    let mut best_den = reference_den(&hq);
    let mut best_glyph = first_glyph;
    let ghost mut best: int = 0;
    let mut i: usize = 1;
    while i < PALETTE_LEN
        invariant
            1 <= i <= PALETTE_LEN,
            hp.describes(pixel),
            hp.in_range(),
            best == nearest_upto(pixel, i as int),
            0 <= best < i,
            best_num == dist_num(pixel, palette_color(best)),
            0 <= best_num <= 8_000_000_000_000_000_000_000_000,
            best_den == own_den(palette_color(best)),
            1 <= best_den <= 65025 * 65025,
            best_glyph == palette_glyph(best),
        decreases PALETTE_LEN - i,
    {
        let (glyph, color) = palette_entry(i);
        let hq = to_hsv(color);
        let num = distance_num(&hp, &hq);
        let den = reference_den(&hq);
        proof {
            lemma_closer_by_own_den(pixel, color, palette_color(best));
            lemma_product_bound(num as int, best_den as int, 8_000_000_000_000_000_000_000_000, (65025 * 65025) as int);
            lemma_product_bound(best_num as int, den as int, 8_000_000_000_000_000_000_000_000, (65025 * 65025) as int);
        }
        if num * best_den < best_num * den {
            best_num = num;
            best_den = den;
            best_glyph = glyph;
            proof {
                best = i as int;
            }
        }
        i = i + 1;
    }
    (x, y, best_glyph)
}

} // verus!
