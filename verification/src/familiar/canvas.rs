//! The picture that is painted on: rows of pixels from the top, four bytes each.

use vstd::prelude::*;
use vstd::string::*;

use crate::familiar::color::Color;
use crate::text::{chars_of, decimal, decimal_text};

verus! {

/// A picture.
pub struct Canvas {
    pub width: u32,
    pub height: u32,
    pub buf: Vec<u8>,
}

/// The bytes of a picture of that size.
pub open spec fn canvas_len(width: u32, height: u32) -> int {
    width * height * 4
}

/// Where the bytes of a pixel begin.
pub open spec fn pixel_at(width: u32, x: int, y: int) -> int {
    (y * width + x) * 4
}

/// The opacity of one colour over another.
pub open spec fn over_alpha(sa: int, da: int) -> int {
    sa + da * (255 - sa) / 255
}

/// One channel of one colour over another, whose opacity together is `out_a`. The opacity is
/// rounded down, so that the quotient can come out above the brightest; it is kept to that.
pub open spec fn over_channel(src: int, dst: int, sa: int, da: int, out_a: int) -> u8 {
    let q = (src * sa + dst * da * (255 - sa) / 255) / out_a;
    if q > 255 {
        255
    } else {
        q as u8
    }
}

/// A colour over a pixel.
pub open spec fn over(c: Color, d: Color) -> Color {
    let sa = c.a as int;
    let da = d.a as int;
    let out_a = over_alpha(sa, da);
    if out_a == 0 {
        Color { r: 0, g: 0, b: 0, a: 0 }
    } else {
        Color {
            r: over_channel(c.r as int, d.r as int, sa, da, out_a),
            g: over_channel(c.g as int, d.g as int, sa, da, out_a),
            b: over_channel(c.b as int, d.b as int, sa, da, out_a),
            a: out_a as u8,
        }
    }
}

/// The colour whose bytes begin at `i`.
pub open spec fn color_at(buf: Seq<u8>, i: int) -> Color {
    Color { r: buf[i], g: buf[i + 1], b: buf[i + 2], a: buf[i + 3] }
}

/// The bytes with a colour written from `i` on.
pub open spec fn with_color(buf: Seq<u8>, i: int, c: Color) -> Seq<u8> {
    buf.update(i, c.r).update(i + 1, c.g).update(i + 2, c.b).update(i + 3, c.a)
}

/// Black and invisible throughout.
pub open spec fn all_zero(buf: Seq<u8>) -> bool {
    forall|i: int| 0 <= i < buf.len() ==> #[trigger] buf[i] == 0
}

/// Is the pixel on the picture?
pub open spec fn on_canvas(width: u32, height: u32, x: i32, y: i32) -> bool {
    0 <= x < width && 0 <= y < height
}

/// The bytes of a portable pixmap's rows: red, green and blue of each pixel.
pub open spec fn rgb_only(buf: Seq<u8>) -> Seq<u8>
    decreases buf.len(),
{
    if buf.len() < 4 {
        Seq::empty()
    } else {
        seq![buf[0], buf[1], buf[2]] + rgb_only(buf.skip(4))
    }
}

/// The text as bytes, each character one.
pub open spec fn low_bytes(s: Seq<char>) -> Seq<u8> {
    Seq::new(s.len(), |i: int| s[i] as u8)
}

/// The head of a portable pixmap.
pub open spec fn ppm_head(width: u32, height: u32) -> Seq<char> {
    "P6\n"@ + decimal(width as nat) + " "@ + decimal(height as nat) + "\n255\n"@
}

fn zeros(n: usize) -> (r: Vec<u8>)
    ensures
        r@.len() == n,
        all_zero(r@),
{
    let mut v: Vec<u8> = Vec::new();
    let mut i: usize = 0;
    while i < n
        invariant
            0 <= i <= n,
            v@.len() == i,
            all_zero(v@),
        decreases n - i,
    {
        v.push(0);
        i = i + 1;
    }
    v
}

fn area_bytes(width: u32, height: u32) -> (r: usize)
    requires
        canvas_len(width, height) <= usize::MAX,
    ensures
        r == canvas_len(width, height),
{
    proof {
        assert(0 <= width * height <= 0xffff_ffff * 0xffff_ffff) by (nonlinear_arith)
            requires
                0 <= width <= 0xffff_ffff,
                0 <= height <= 0xffff_ffff,
        ;
    }
    let px: u64 = (width as u64) * (height as u64);
    (px * 4) as usize
}

fn channel(src: u8, dst: u8, sa: u32, da: u32, out_a: u32) -> (r: u8)
    requires
        sa <= 255,
        da <= 255,
        0 < out_a,
    ensures
        r == over_channel(src as int, dst as int, sa as int, da as int, out_a as int),
{
    proof {
        assert(0 <= src * sa <= 255 * 255) by (nonlinear_arith)
            requires
                0 <= src <= 255,
                0 <= sa <= 255,
        ;
        assert(0 <= dst * da <= 255 * 255) by (nonlinear_arith)
            requires
                0 <= dst <= 255,
                0 <= da <= 255,
        ;
        assert(0 <= (dst * da) * (255 - sa) <= 255 * 255 * 255) by (nonlinear_arith)
            requires
                0 <= dst * da <= 255 * 255,
                0 <= sa <= 255,
        ;
    }
    let sv: u32 = (src as u32) * sa;
    let dv: u32 = (dst as u32) * da * (255 - sa) / 255;
    let q: u32 = (sv + dv) / out_a;
    if q > 255 {
        255
    } else {
        q as u8
    }
}

impl Canvas {
    /// There are four bytes for each pixel.
    pub open spec fn wf(&self) -> bool {
        self.buf@.len() == canvas_len(self.width, self.height)
    }

    /// An empty picture.
    pub fn new(width: u32, height: u32) -> (r: Self)
        requires
            canvas_len(width, height) <= usize::MAX,
        ensures
            r.wf(),
            r.width == width,
            r.height == height,
            all_zero(r.buf@),
    {
        Canvas { width, height, buf: zeros(area_bytes(width, height)) }
    }

    /// Changes the size. A new size empties the picture, the same one leaves it alone.
    pub fn resize(&mut self, width: u32, height: u32)
        requires
            old(self).wf(),
            canvas_len(width, height) <= usize::MAX,
        ensures
            final(self).wf(),
            final(self).width == width,
            final(self).height == height,
            width == old(self).width && height == old(self).height ==> final(self).buf@ == old(
                self,
            ).buf@,
            !(width == old(self).width && height == old(self).height) ==> all_zero(
                final(self).buf@,
            ),
    {
        if self.width != width || self.height != height {
            self.width = width;
            self.height = height;
            self.buf = zeros(area_bytes(width, height));
        }
    }

    /// Paints all of it in one colour.
    pub fn clear(&mut self, c: Color)
        requires
            old(self).wf(),
        ensures
            final(self).wf(),
            final(self).width == old(self).width,
            final(self).height == old(self).height,
            forall|i: int|
                0 <= i < final(self).buf@.len() && i % 4 == 0 ==> #[trigger] color_at(
                    final(self).buf@,
                    i,
                ) == c,
    {
        let n: usize = self.buf.len();
        let mut i: usize = 0;
        while i + 3 < n
            invariant
                i % 4 == 0,
                n % 4 == 0,
                i <= n,
                n == self.buf@.len(),
                self.width == old(self).width,
                self.height == old(self).height,
                n == canvas_len(self.width, self.height),
                forall|j: int|
                    0 <= j < i && j % 4 == 0 ==> #[trigger] color_at(self.buf@, j) == c,
            decreases n - i,
        {
            let ghost before = self.buf@;
            self.buf.set(i, c.r);
            self.buf.set(i + 1, c.g);
            self.buf.set(i + 2, c.b);
            self.buf.set(i + 3, c.a);
            proof {
                assert forall|j: int| 0 <= j < i + 4 && j % 4 == 0 implies #[trigger] color_at(
                    self.buf@,
                    j,
                ) == c by {
                    if j < i {
                        assert(j + 3 < i);
                        assert(color_at(before, j) == c);
                    }
                }
            }
            i = i + 4;
        }
    }

    /// Paints one pixel: the colour over what is there. Off the picture nothing happens.
    pub fn put(&mut self, x: i32, y: i32, c: Color)
        requires
            old(self).wf(),
        ensures
            final(self).wf(),
            final(self).width == old(self).width,
            final(self).height == old(self).height,
            !on_canvas(old(self).width, old(self).height, x, y) ==> final(self).buf@ == old(
                self,
            ).buf@,
            on_canvas(old(self).width, old(self).height, x, y) ==> {
                let i = pixel_at(old(self).width, x as int, y as int);
                final(self).buf@ == with_color(
                    old(self).buf@,
                    i,
                    over(c, color_at(old(self).buf@, i)),
                )
            },
    {
        if x < 0 || y < 0 || x as u32 >= self.width || y as u32 >= self.height {
            return;
        }
        let n: usize = self.buf.len();
        let ghost w = self.width as int;
        let ghost h = self.height as int;
        proof {
            assert(w * h * 4 == n);
            assert((y * w + x + 1) <= w * h) by (nonlinear_arith)
                requires
                    0 <= x < w,
                    0 <= y < h,
            ;
            assert(0 <= y * w) by (nonlinear_arith)
                requires
                    0 <= w,
                    0 <= y,
            ;
        }
        let i: usize = ((y as usize) * (self.width as usize) + (x as usize)) * 4;
        let sa: u32 = c.a as u32;
        let da: u32 = self.buf[i + 3] as u32;
        proof {
            assert(0 <= da * (255 - sa) <= 255 * 255) by (nonlinear_arith)
                requires
                    0 <= da <= 255,
                    0 <= sa <= 255,
            ;
            assert(da * (255 - sa) <= 255 * (255 - sa)) by (nonlinear_arith)
                requires
                    0 <= da <= 255,
                    0 <= sa <= 255,
            ;
        }
        let out_a: u32 = sa + da * (255 - sa) / 255;
        if out_a == 0 {
            self.buf.set(i, 0);
            self.buf.set(i + 1, 0);
            self.buf.set(i + 2, 0);
            self.buf.set(i + 3, 0);
            return;
        }
        let r: u8 = channel(c.r, self.buf[i], sa, da, out_a);
        let g: u8 = channel(c.g, self.buf[i + 1], sa, da, out_a);
        let b: u8 = channel(c.b, self.buf[i + 2], sa, da, out_a);
        self.buf.set(i, r);
        self.buf.set(i + 1, g);
        self.buf.set(i + 2, b);
        self.buf.set(i + 3, out_a as u8);
    }

    /// All bytes.
    pub fn as_bytes(&self) -> (r: &[u8])
        ensures
            r@ == self.buf@,
    {
        self.buf.as_slice()
    }

    /// The picture as a portable pixmap, without its opacity.
    pub fn ppm(&self) -> (r: Vec<u8>)
        requires
            self.wf(),
        ensures
            r@ == low_bytes(ppm_head(self.width, self.height)) + rgb_only(self.buf@),
    {
        let mut head = "P6\n".to_owned();
        head.append(decimal_text(self.width as u64).as_str());
        head.append(" ");
        head.append(decimal_text(self.height as u64).as_str());
        head.append("\n255\n");
        let cs = chars_of(head.as_str());
        let mut out: Vec<u8> = Vec::new();
        let mut k: usize = 0;
        while k < cs.len()
            invariant
                0 <= k <= cs.len(),
                out@ == low_bytes(cs@.take(k as int)),
            decreases cs.len() - k,
        {
            out.push(#[verifier::truncate] (cs[k] as u8));
            k = k + 1;
            proof {
                assert(out@ =~= low_bytes(cs@.take(k as int)));
            }
        }
        proof {
            assert(cs@.take(cs@.len() as int) =~= cs@);
        }
        let ghost h = out@;
        let n: usize = self.buf.len();
        let mut i: usize = 0;
        proof {
            assert(self.buf@.skip(0) =~= self.buf@);
            assert(out@ + rgb_only(self.buf@) =~= h + rgb_only(self.buf@));
        }
        while i + 3 < n
            invariant
                i <= n,
                n == self.buf@.len(),
                n % 4 == 0,
                i % 4 == 0,
                out@ + rgb_only(self.buf@.skip(i as int)) == h + rgb_only(self.buf@),
            decreases n - i,
        {
            let ghost rest = self.buf@.skip(i as int);
            let ghost before = out@;
            out.push(self.buf[i]);
            out.push(self.buf[i + 1]);
            out.push(self.buf[i + 2]);
            proof {
                assert(rest.skip(4) =~= self.buf@.skip(i + 4));
                assert(out@ =~= before + seq![rest[0], rest[1], rest[2]]);
                assert(out@ + rgb_only(rest.skip(4)) =~= before + rgb_only(rest));
            }
            i = i + 4;
        }
        proof {
            assert(self.buf@.skip(i as int).len() < 4);
            assert(out@ =~= h + rgb_only(self.buf@));
        }
        out
    }
}

/// Law: an opaque colour replaces what is there, and an invisible one over an opaque pixel
/// changes nothing.
pub proof fn law_opaque_covers_and_invisible_does_not(c: Color, d: Color)
    ensures
        c.a == 255 ==> over(c, d) == c,
        c.a == 0 && d.a == 255 ==> over(c, d) == d,
{
    if c.a == 255 {
        assert(d.a * (255 - 255) / 255 == 0) by (nonlinear_arith);
        assert forall|src: int, dst: int| 0 <= src <= 255 && 0 <= dst <= 255 implies #[trigger]
            over_channel(src, dst, 255, d.a as int, 255) == src by {
            lemma_full_cover(src, dst, d.a as int);
        }
    }
    if c.a == 0 && d.a == 255 {
        assert forall|src: int, dst: int| 0 <= src <= 255 && 0 <= dst <= 255 implies #[trigger]
            over_channel(src, dst, 0, 255, 255) == dst by {
            lemma_no_cover(src, dst);
        }
    }
}

proof fn lemma_full_cover(src: int, dst: int, da: int)
    requires
        0 <= src <= 255,
        0 <= dst <= 255,
        0 <= da <= 255,
    ensures
        over_channel(src, dst, 255, da, 255) == src,
{
    assert(dst * da * (255 - 255) == 0) by (nonlinear_arith);
    assert((src * 255) / 255 == src) by (nonlinear_arith);
}

proof fn lemma_no_cover(src: int, dst: int)
    requires
        0 <= src <= 255,
        0 <= dst <= 255,
    ensures
        over_channel(src, dst, 0, 255, 255) == dst,
{
    assert(src * 0 == 0) by (nonlinear_arith);
    assert(dst * 255 * (255 - 0) / 255 == dst * 255) by (nonlinear_arith);
    assert((dst * 255) / 255 == dst) by (nonlinear_arith);
}

/// Law: painting one pixel touches no other.
pub proof fn law_other_pixels_stay(width: u32, buf: Seq<u8>, x: int, y: int, c: Color, u: int, v: int)
    requires
        0 <= x < width,
        0 <= y,
        0 <= u < width,
        0 <= v,
        (u, v) != (x, y),
        pixel_at(width, x, y) + 4 <= buf.len(),
        pixel_at(width, u, v) + 4 <= buf.len(),
    ensures
        color_at(with_color(buf, pixel_at(width, x, y), c), pixel_at(width, u, v)) == color_at(
            buf,
            pixel_at(width, u, v),
        ),
{
    let w = width as int;
    assert(y * w + x != v * w + u) by (nonlinear_arith)
        requires
            0 <= x < w,
            0 <= u < w,
            x != u || y != v,
    ;
    assert(0 <= y * w && 0 <= v * w) by (nonlinear_arith)
        requires
            0 <= y,
            0 <= v,
            0 <= w,
    ;
}

/// Law: white over white stays white, however faint both are.
pub proof fn law_white_stays_white(sa: u8, da: u8)
    requires
        over_alpha(sa as int, da as int) > 0,
    ensures
        over_channel(255, 255, sa as int, da as int, over_alpha(sa as int, da as int)) == 255,
{
    let s = sa as int;
    let d = da as int;
    let m = d * (255 - s);
    let out_a = over_alpha(s, d);
    let sum = 255 * s + 255 * d * (255 - s) / 255;
    assert(255 * d * (255 - s) == 255 * m) by (nonlinear_arith)
        requires
            m == d * (255 - s),
    ;
    assert(m >= 0) by (nonlinear_arith)
        requires
            m == d * (255 - s),
            d >= 0,
            s <= 255,
    ;
    assert(sum == 255 * s + m);
    assert(255 * (m / 255) <= m);
    assert(sum >= 255 * out_a);
    assert(sum / out_a >= 255) by (nonlinear_arith)
        requires
            sum >= 255 * out_a,
            out_a > 0,
    ;
}

/// Law: pixels lie row by row from the top left, four bytes each.
pub proof fn law_pixels_lie_row_by_row(width: u32, x: int, y: int)
    ensures
        pixel_at(width, 0, 0) == 0,
        pixel_at(width, x + 1, y) == pixel_at(width, x, y) + 4,
        pixel_at(width, 0, y + 1) == pixel_at(width, width as int, y),
{
    let w = width as int;
    assert((y + 1) * w == y * w + w) by (nonlinear_arith);
}

/// Law: a pixel that was set reads back, and a canvas keeps its size.
pub proof fn law_a_pixel_reads_back(buf: Seq<u8>, i: int, c: Color)
    requires
        0 <= i,
        i + 4 <= buf.len(),
    ensures
        color_at(with_color(buf, i, c), i) == c,
        with_color(buf, i, c).len() == buf.len(),
        with_color(buf, i, c)[i] == c.r,
        with_color(buf, i, c)[i + 1] == c.g,
        with_color(buf, i, c)[i + 2] == c.b,
        with_color(buf, i, c)[i + 3] == c.a,
{
}

/// Law: over an opaque ground a colour is mixed by its alpha: each channel is the weighted mean of
/// the two, cut off, and the ground stays opaque.
pub proof fn law_colours_mix_by_alpha(c: Color, d: Color)
    requires
        d.a == 255,
    ensures
        over(c, d).a == 255,
        ({
            let m = c.r * c.a + d.r * (255 - c.a);
            255 * over(c, d).r <= m < 255 * (over(c, d).r + 1)
        }),
        ({
            let m = c.g * c.a + d.g * (255 - c.a);
            255 * over(c, d).g <= m < 255 * (over(c, d).g + 1)
        }),
        ({
            let m = c.b * c.a + d.b * (255 - c.a);
            255 * over(c, d).b <= m < 255 * (over(c, d).b + 1)
        }),
{
    let sa = c.a as int;
    assert(255 * (255 - sa) / 255 == 255 - sa) by (nonlinear_arith);
    lemma_mixed(c.r as int, d.r as int, sa);
    lemma_mixed(c.g as int, d.g as int, sa);
    lemma_mixed(c.b as int, d.b as int, sa);
}

proof fn lemma_mixed(src: int, dst: int, sa: int)
    requires
        0 <= src <= 255,
        0 <= dst <= 255,
        0 <= sa <= 255,
    ensures
        ({
            let m = src * sa + dst * (255 - sa);
            let q = over_channel(src, dst, sa, 255, 255);
            255 * q <= m < 255 * (q + 1)
        }),
{
    let k = dst * (255 - sa);
    assert(dst * 255 * (255 - sa) == 255 * k) by (nonlinear_arith)
        requires
            k == dst * (255 - sa),
    ;
    assert(dst * 255 * (255 - sa) / 255 == k);
    let m = src * sa + k;
    assert(0 <= m <= 255 * 255) by (nonlinear_arith)
        requires
            m == src * sa + k,
            k == dst * (255 - sa),
            0 <= src <= 255,
            0 <= dst <= 255,
            0 <= sa <= 255,
    ;
    assert(m / 255 <= 255);
}

/// Law: paint never takes opacity away: the outcome is at least as opaque as what was put on, and
/// all but a step as opaque as what was there; nothing on nothing is nothing.
pub proof fn law_paint_only_adds_opacity(sa: int, da: int)
    requires
        0 <= sa <= 255,
        0 <= da <= 255,
    ensures
        sa <= over_alpha(sa, da) <= 255,
        da - 1 <= over_alpha(sa, da),
        over_alpha(0, da) == da,
        over_alpha(sa, 0) == sa,
        over_alpha(255, da) == 255,
{
    let m = da * (255 - sa);
    assert(0 <= m <= 255 * (255 - sa) && m >= 255 * da - 255 * sa) by (nonlinear_arith)
        requires
            m == da * (255 - sa),
            0 <= sa <= 255,
            0 <= da <= 255,
    ;
    assert(da * (255 - 0) / 255 == da) by (nonlinear_arith);
    assert(0 * (255 - sa) / 255 == 0) by (nonlinear_arith);
    assert(da * (255 - 255) / 255 == 0) by (nonlinear_arith);
}

/// Law: the picture has the colours of the canvas, pixel by pixel, without their opacity.
pub proof fn law_the_picture_has_the_canvas_colours(buf: Seq<u8>, k: int)
    requires
        0 <= k,
        4 * k + 4 <= buf.len(),
    ensures
        rgb_only(buf).len() == buf.len() / 4 * 3,
        rgb_only(buf)[3 * k] == buf[4 * k],
        rgb_only(buf)[3 * k + 1] == buf[4 * k + 1],
        rgb_only(buf)[3 * k + 2] == buf[4 * k + 2],
    decreases buf.len(),
{
    let rest = buf.skip(4);
    if k > 0 {
        law_the_picture_has_the_canvas_colours(rest, k - 1);
        assert(rest[4 * (k - 1)] == buf[4 * k]);
        assert(rest[4 * (k - 1) + 1] == buf[4 * k + 1]);
        assert(rest[4 * (k - 1) + 2] == buf[4 * k + 2]);
    } else if rest.len() >= 4 {
        law_the_picture_has_the_canvas_colours(rest, 0);
    } else {
        assert(rgb_only(rest).len() == 0);
    }
}

/// Law: paint lands on its pixel and nowhere else, and none outside the canvas.
pub proof fn law_paint_lands_on_its_pixel(
    c: &mut Canvas,
    x: i32,
    y: i32,
    paint: Color,
    u: int,
    v: int,
)
    requires
        call_ensures(Canvas::put, (c, x, y, paint), ()),
        old(c).wf(),
        0 <= u < old(c).width,
        0 <= v < old(c).height,
    ensures
        final(c).width == old(c).width && final(c).height == old(c).height,
        (u, v) != (x as int, y as int) ==> color_at(
            final(c).buf@,
            pixel_at(old(c).width, u, v),
        ) == color_at(old(c).buf@, pixel_at(old(c).width, u, v)),
        (u, v) == (x as int, y as int) && paint.a == 255 ==> color_at(
            final(c).buf@,
            pixel_at(old(c).width, u, v),
        ) == paint,
{
    let w = old(c).width;
    let h = old(c).height;
    lemma_pixel_inside(w, h, u, v);
    if on_canvas(w, h, x, y) {
        lemma_pixel_inside(w, h, x as int, y as int);
        let i = pixel_at(w, x as int, y as int);
        let out = over(paint, color_at(old(c).buf@, i));
        if (u, v) != (x as int, y as int) {
            law_other_pixels_stay(w, old(c).buf@, x as int, y as int, out, u, v);
        } else {
            law_a_pixel_reads_back(old(c).buf@, i, out);
            law_opaque_covers_and_invisible_does_not(paint, color_at(old(c).buf@, i));
        }
    }
}

proof fn lemma_pixel_inside(width: u32, height: u32, x: int, y: int)
    requires
        0 <= x < width,
        0 <= y < height,
    ensures
        0 <= pixel_at(width, x, y),
        pixel_at(width, x, y) + 4 <= canvas_len(width, height),
{
    let w = width as int;
    let h = height as int;
    assert(0 <= y * w + x && y * w + x + 1 <= w * h) by (nonlinear_arith)
        requires
            0 <= x < w,
            0 <= y < h,
    ;
}

/// Law: the picture is a PPM file: its head tells its size, and behind it stand the colours of the
/// canvas, pixel by pixel.
pub proof fn law_the_picture_tells_its_size(c: Canvas, r: Vec<u8>, k: int)
    requires
        c.wf(),
        call_ensures(Canvas::ppm, (&c,), r),
        0 <= k,
        4 * k + 4 <= c.buf@.len(),
    ensures
        ({
            let head = "P6\n"@ + decimal(c.width as nat) + " "@ + decimal(c.height as nat)
                + "\n255\n"@;
            let n = head.len() as int;
            &&& r@.len() == n + c.buf@.len() / 4 * 3
            &&& forall|i: int| 0 <= i < n ==> #[trigger] r@[i] == head[i] as u8
            &&& r@[n + 3 * k] == c.buf@[4 * k]
            &&& r@[n + 3 * k + 1] == c.buf@[4 * k + 1]
            &&& r@[n + 3 * k + 2] == c.buf@[4 * k + 2]
        }),
{
    law_the_picture_has_the_canvas_colours(c.buf@, k);
}

/// Law: a canvas of a new size is blank, and one of the same size stays as it is; clearing gives
/// every pixel the one colour.
pub proof fn law_a_resized_canvas_is_blank(
    c: &mut Canvas,
    d: &mut Canvas,
    width: u32,
    height: u32,
    paint: Color,
    x: int,
    y: int,
)
    requires
        call_ensures(Canvas::resize, (c, width, height), ()),
        *old(d) == *final(c),
        call_ensures(Canvas::clear, (d, paint), ()),
        0 <= x < width,
        0 <= y < height,
    ensures
        final(c).width == width && final(c).height == height,
        width == old(c).width && height == old(c).height ==> final(c).buf@ == old(c).buf@,
        width != old(c).width || height != old(c).height ==> color_at(
            final(c).buf@,
            pixel_at(width, x, y),
        ) == (Color { r: 0, g: 0, b: 0, a: 0 }),
        color_at(final(d).buf@, pixel_at(width, x, y)) == paint,
{
    lemma_pixel_inside(width, height, x, y);
    let i = pixel_at(width, x, y);
    assert(i % 4 == 0);
}

} // verus!
