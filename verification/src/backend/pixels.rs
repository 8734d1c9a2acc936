//! Preview images: packed rows of four bytes per pixel.

use crate::float::bounds::{
    lemma_near_back, lemma_near_chain, lemma_near_scaled, lemma_same_size, middles_are_exact,
    moderate, one_is_neutral, scaling_is_near, unscaling_is_near,
    whole_numbers_are_moderate, whole_parts_are_exact, whole_rounding,
};
use crate::float::exact::{whole_numbers_are_exact, whole_truncation};
use crate::float::nearest::apart;
use crate::float::rounding;
use crate::float::single::F32;
use crate::float::whole::one;
use vstd::prelude::*;

verus! {

/// Per-channel tolerance when comparing frames; blur behind translucent
/// surfaces produces dither noise from frame to frame.
pub const PIXEL_TOLERANCE: u8 = 6;

/// Two channel values that count as equal.
pub open spec fn close(a: u8, b: u8) -> bool {
    a - b <= PIXEL_TOLERANCE && b - a <= PIXEL_TOLERANCE
}

/// Two byte rows that count as equal.
pub open spec fn similar(a: Seq<u8>, b: Seq<u8>) -> bool {
    a.len() == b.len() && forall|i: int|
        0 <= i < a.len() ==> close(#[trigger] a[i], #[trigger] b[i])
}

/// Channel `c` of the pixel in column `x` of row `y`.
pub open spec fn channel(pixels: Seq<u8>, width: int, x: int, y: int, c: int) -> u8 {
    pixels[(y * width + x) * 4 + c]
}

fn values_close(a: u8, b: u8) -> (res: bool)
    ensures
        res == close(a, b),
{
    if a >= b {
        a - b <= PIXEL_TOLERANCE
    } else {
        b - a <= PIXEL_TOLERANCE
    }
}

/// Whether bytes `from .. to` of two rows are alike.
pub fn range_similar(a: &[u8], b: &[u8], from: usize, to: usize) -> (res: bool)
    requires
        from <= to <= a.len(),
        to <= b.len(),
    ensures
        res == forall|i: int| from <= i < to ==> close(#[trigger] a@[i], #[trigger] b@[i]),
{
    let mut i: usize = from;
    while i < to
        invariant
            from <= i <= to <= a.len(),
            to <= b.len(),
            forall|j: int| from <= j < i ==> close(#[trigger] a@[j], #[trigger] b@[j]),
        decreases to - i,
    {
        if !values_close(a[i], b[i]) {
            assert(!close(a@[i as int], b@[i as int]));
            return false;
        }
        i = i + 1;
    }
    true
}

/// Whether two rows have one length and are alike in every byte.
pub fn rows_similar(a: &[u8], b: &[u8]) -> (res: bool)
    ensures
        res == similar(a@, b@),
{
    a.len() == b.len() && range_similar(a, b, 0, a.len())
}

/// Width of a preview: as asked for, but never wider than the frame, and at
/// least one pixel.
pub open spec fn preview_width(w: u32, target: u32) -> u32 {
    let wanted: u32 = if target < 1 {
        1
    } else {
        target
    };
    let most: u32 = if w < 1 {
        1
    } else {
        w
    };
    if wanted < most {
        wanted
    } else {
        most
    }
}

/// Frame pixels per preview pixel.
pub open spec fn preview_scale(w: u32, target: u32) -> F32 {
    F32::of_int(w as int).quotient(F32::of_int(preview_width(w, target) as int))
}

/// Height of a preview: the frame's height over the scale, rounded, at least 1.
pub open spec fn preview_height(w: u32, h: u32, target: u32) -> int {
    let n = F32::of_int(h as int).quotient(preview_scale(w, target)).rounded().truncated(
        0,
        u32::MAX as int,
    );
    if n < 1 {
        1
    } else {
        n
    }
}

/// The frame row or column that preview row or column `i` is taken from: the
/// one that its middle falls into.
pub open spec fn sample(i: int, scale: F32, len: u32) -> int {
    let n = F32::of_int(i).sum(F32 { bits: 0x3f00_0000 }).product(scale).truncated(
        0,
        u64::MAX as int,
    );
    if n < len - 1 {
        n
    } else {
        len - 1
    }
}

/// Every row that the preview samples lies in the buffer.
pub open spec fn rows_present(w: u32, h: u32, len: nat, stride: nat, target: u32) -> bool {
    forall|y: int|
        0 <= y < preview_height(w, h, target) ==> #[trigger] sample(
            y,
            preview_scale(w, target),
            h,
        ) * stride + w * 4 <= len
}

/// A buffer that holds all rows of a frame holds the sampled ones.
pub proof fn full_frame_has_rows(w: u32, h: u32, len: nat, stride: nat, target: u32)
    requires
        w >= 1,
        h >= 1,
        (h - 1) * stride + w * 4 <= len,
    ensures
        rows_present(w, h, len, stride, target),
{
    assert forall|y: int| 0 <= y < preview_height(w, h, target) implies #[trigger] sample(
        y,
        preview_scale(w, target),
        h,
    ) * stride + w * 4 <= len by {
        let s = sample(y, preview_scale(w, target), h);
        assert(s * stride <= (h - 1) * stride) by (nonlinear_arith)
            requires
                s <= h - 1,
                stride >= 0,
        ;
    }
}

/// A preview is no wider than asked for and no wider than its frame, and it is
/// never empty.
pub proof fn previews_fit(w: u32, h: u32, target: u32)
    ensures
        1 <= preview_width(w, target),
        w >= 1 ==> preview_width(w, target) <= w,
        target >= 1 ==> preview_width(w, target) <= target,
        preview_height(w, h, target) >= 1,
{
}

fn sampled_index(i: u32, scale: &F32, len: u32) -> (n: u32)
    requires
        len >= 1,
    ensures
        n == sample(i as int, *scale, len),
        n < len,
{
    let half: F32 = F32 { bits: 0x3f00_0000 };
    let n: u64 = F32::from_u64(i as u64).plus(&half).times(scale).to_u64();
    let last: u32 = len - 1;
    if n < last as u64 {
        n as u32
    } else {
        last
    }
}

/// Whether every row that the preview samples lies in a buffer of `len` bytes.
pub fn has_rows(w: u32, h: u32, len: usize, stride: usize, target: u32) -> (res: bool)
    requires
        w >= 1,
        h >= 1,
    ensures
        res == rows_present(w, h, len as nat, stride as nat, target),
{
    let (sw, sh) = preview_size(w, h, target);
    let scale: F32 = F32::from_u64(w as u64).over(&F32::from_u64(sw as u64));
    let mut y: u32 = 0;
    while y < sh
        invariant
            h >= 1,
            y <= sh,
            sh == preview_height(w, h, target),
            scale == preview_scale(w, target),
            forall|k: int|
                0 <= k < y ==> #[trigger] sample(k, preview_scale(w, target), h) * stride + w * 4
                    <= len,
        decreases sh - y,
    {
        let row: u32 = sampled_index(y, &scale, h);
        proof {
            assert(row * stride <= 0xffff_ffff * 0xffff_ffff_ffff_ffff) by (nonlinear_arith)
                requires
                    0 <= row <= 0xffff_ffff,
                    0 <= stride <= 0xffff_ffff_ffff_ffff,
            ;
        }
        let end: u128 = row as u128 * stride as u128 + w as u128 * 4;
        if end > len as u128 {
            assert(sample(y as int, preview_scale(w, target), h) * stride + w * 4 > len);
            return false;
        }
        y = y + 1;
    }
    true
}

/// Positions in an image grow row by row.
proof fn lemma_earlier(width: int, x: int, y: int, x2: int, y2: int)
    requires
        0 <= x < width,
        0 <= y,
        0 <= x2 < width,
        y < y2 || (y == y2 && x < x2),
    ensures
        0 <= y * width + x < y2 * width + x2,
{
    assert(y * width >= 0) by (nonlinear_arith)
        requires
            y >= 0,
            width > 0,
    ;
    if y < y2 {
        assert((y + 1) * width <= y2 * width) by (nonlinear_arith)
            requires
                y + 1 <= y2,
                width > 0,
        ;
        assert((y + 1) * width == y * width + width) by (nonlinear_arith);
    }
}

/// The size that a frame of `w` by `h` pixels is scaled down to.
pub fn preview_size(w: u32, h: u32, target: u32) -> (size: (u32, u32))
    ensures
        size.0 == preview_width(w, target),
        size.1 == preview_height(w, h, target),
{
    let wanted: u32 = if target < 1 {
        1
    } else {
        target
    };
    let most: u32 = if w < 1 {
        1
    } else {
        w
    };
    let sw: u32 = if wanted < most {
        wanted
    } else {
        most
    };
    let scale: F32 = F32::from_u64(w as u64).over(&F32::from_u64(sw as u64));
    let rows: u32 = F32::from_u64(h as u64).over(&scale).round().to_u32();
    if rows < 1 {
        (sw, 1)
    } else {
        (sw, rows)
    }
}

/// Nearest-neighbor downscale to at most `target` px wide; an image has one
/// pixel at least, so a `target` of 0 counts as 1. `stride` is the
/// source row stride in bytes, which may exceed `w * 4`: rows of GPU buffers
/// are often padded to an alignment boundary.
pub fn downscale(w: u32, h: u32, src: &[u8], stride: usize, target: u32) -> (res: (
    u32,
    u32,
    Vec<u8>,
))
    requires
        w >= 1,
        h >= 1,
        rows_present(w, h, src@.len(), stride as nat, target),
    ensures
        target >= 1 ==> res.0 <= target,
        res.0 == preview_width(w, target),
        res.1 == preview_height(w, h, target),
        res.2@.len() == res.0 * res.1 * 4,
        forall|x: int, y: int, c: int|
            0 <= x < res.0 && 0 <= y < res.1 && 0 <= c < 4 ==> #[trigger] channel(
                res.2@,
                res.0 as int,
                x,
                y,
                c,
            ) == src@[sample(y, preview_scale(w, target), h) * stride + sample(
                x,
                preview_scale(w, target),
                w,
            ) * 4 + c],
{
    let available: usize = src.len();
    let (sw, sh) = preview_size(w, h, target);
    let scale: F32 = F32::from_u64(w as u64).over(&F32::from_u64(sw as u64));
    let mut columns: Vec<u32> = Vec::new();
    let mut i: u32 = 0;
    while i < sw
        invariant
            w >= 1,
            i <= sw,
            columns.len() == i,
            forall|k: int|
                0 <= k < i ==> #[trigger] columns@[k] == sample(k, scale, w) && columns@[k] < w,
        decreases sw - i,
    {
        columns.push(sampled_index(i, &scale, w));
        i = i + 1;
    }
    let mut out: Vec<u8> = Vec::new();
    let mut y: u32 = 0;
    assert(0 * sw * 4 == 0);
    while y < sh
        invariant
            w >= 1,
            h >= 1,
            sw >= 1,
            sw == preview_width(w, target),
            sh == preview_height(w, h, target),
            scale == preview_scale(w, target),
            available == src@.len(),
            rows_present(w, h, src@.len(), stride as nat, target),
            columns.len() == sw,
            forall|k: int|
                0 <= k < sw ==> #[trigger] columns@[k] == sample(k, scale, w) && columns@[k] < w,
            y <= sh,
            out@.len() == y * sw * 4,
            forall|x2: int, y2: int, c: int|
                0 <= x2 < sw && 0 <= y2 < y && 0 <= c < 4 ==> #[trigger] channel(
                    out@,
                    sw as int,
                    x2,
                    y2,
                    c,
                ) == src@[sample(y2, scale, h) * stride + sample(x2, scale, w) * 4 + c],
        decreases sh - y,
    {
        let row: u32 = sampled_index(y, &scale, h);
        assert(row * stride + w * 4 <= src@.len());
        assert(row * stride >= 0) by (nonlinear_arith)
            requires
                row >= 0,
                stride >= 0,
        ;
        let start: usize = row as usize * stride;
        let mut x: u32 = 0;
        while x < sw
            invariant
                w >= 1,
                sw >= 1,
                y < sh,
                columns.len() == sw,
                forall|k: int|
                    0 <= k < sw ==> #[trigger] columns@[k] == sample(k, scale, w) && columns@[k]
                        < w,
                row == sample(y as int, scale, h),
                available == src@.len(),
                start == row * stride,
                start + w * 4 <= src@.len(),
                x <= sw,
                out@.len() == (y * sw + x) * 4,
                forall|x2: int, y2: int, c: int|
                    0 <= x2 < sw && 0 <= y2 && (y2 < y || (y2 == y && x2 < x)) && 0 <= c < 4
                        ==> #[trigger] channel(out@, sw as int, x2, y2, c) == src@[sample(
                        y2,
                        scale,
                        h,
                    ) * stride + sample(x2, scale, w) * 4 + c],
            decreases sw - x,
        {
            let at: usize = start + columns[x as usize] as usize * 4;
            let ghost before = out@;
            out.push(src[at]);
            out.push(src[at + 1]);
            out.push(src[at + 2]);
            out.push(src[at + 3]);
            proof {
                assert forall|x2: int, y2: int, c: int|
                    0 <= x2 < sw && 0 <= y2 && (y2 < y || (y2 == y && x2 < x + 1)) && 0 <= c
                        < 4 implies #[trigger] channel(out@, sw as int, x2, y2, c)
                    == src@[sample(y2, scale, h) * stride + sample(x2, scale, w) * 4 + c] by {
                    if y2 == y && x2 == x {
                        assert((y2 * sw + x2) * 4 + c == before.len() + c);
                    } else {
                        lemma_earlier(sw as int, x2, y2, x as int, y as int);
                        assert(channel(before, sw as int, x2, y2, c) == channel(
                            out@,
                            sw as int,
                            x2,
                            y2,
                            c,
                        ));
                    }
                }
            }
            x = x + 1;
        }
        assert(y * sw + sw == (y + 1) * sw) by (nonlinear_arith);
        y = y + 1;
    }
    assert(sh * sw * 4 == sw * sh * 4) by (nonlinear_arith);
    (sw, sh, out)
}

/// Thickness per screen edge.
#[derive(Clone, Copy, Debug, PartialEq, Eq, Structural)]
pub struct Strips {
    pub top: u32,
    pub bottom: u32,
    pub left: u32,
    pub right: u32,
}

/// Cropping by `edges` leaves nothing of an image of `w` by `h` pixels.
pub open spec fn crops_all(w: u32, h: u32, edges: Strips) -> bool {
    edges.top + edges.bottom >= h || edges.left + edges.right >= w
}

/// `out` is what cropping an image of `w` by `h` pixels leaves: the pixels
/// between the strips, or the whole image where nothing would be left.
pub open spec fn is_crop(
    w: u32,
    h: u32,
    data: Seq<u8>,
    edges: Strips,
    new_w: u32,
    new_h: u32,
    out: Seq<u8>,
) -> bool {
    if crops_all(w, h, edges) {
        new_w == w && new_h == h && out == data
    } else {
        &&& new_w == w - edges.left - edges.right
        &&& new_h == h - edges.top - edges.bottom
        &&& out.len() == new_w * new_h * 4
        &&& forall|x: int, y: int, c: int|
            0 <= x < new_w && 0 <= y < new_h && 0 <= c < 4 ==> #[trigger] channel(
                out,
                new_w as int,
                x,
                y,
                c,
            ) == channel(data, w as int, edges.left + x, edges.top + y, c)
    }
}

/// Remove crop thicknesses from an image; one that would vanish is left as it
/// is.
pub fn crop(w: u32, h: u32, data: Vec<u8>, edges: Strips) -> (res: (u32, u32, Vec<u8>))
    requires
        !crops_all(w, h, edges) ==> (h - edges.bottom) * w * 4 <= data@.len(),
    ensures
        is_crop(w, h, data@, edges, res.0, res.1, res.2@),
{
    let available: usize = data.len();
    let top: u64 = edges.top as u64;
    let bottom: u64 = edges.bottom as u64;
    let left: u64 = edges.left as u64;
    let right: u64 = edges.right as u64;
    if top + bottom >= h as u64 || left + right >= w as u64 {
        return (w, h, data);
    }
    let new_w: u32 = (w as u64 - left - right) as u32;
    let new_h: u32 = (h as u64 - top - bottom) as u32;
    let mut out: Vec<u8> = Vec::new();
    let mut y: u32 = 0;
    assert(0 * new_w * 4 == 0);
    while y < new_h
        invariant
            new_w == w - left - right,
            new_h == h - top - bottom,
            new_w >= 1,
            left == edges.left,
            top == edges.top,
            bottom == edges.bottom,
            available == data@.len(),
            (h - bottom) * w * 4 <= data@.len(),
            y <= new_h,
            out@.len() == y * new_w * 4,
            forall|x2: int, y2: int, c: int|
                0 <= x2 < new_w && 0 <= y2 < y && 0 <= c < 4 ==> #[trigger] channel(
                    out@,
                    new_w as int,
                    x2,
                    y2,
                    c,
                ) == channel(data@, w as int, edges.left + x2, edges.top + y2, c),
        decreases new_h - y,
    {
        let mut x: u32 = 0;
        while x < new_w
            invariant
                new_w == w - left - right,
                new_h == h - top - bottom,
                new_w >= 1,
                left == edges.left,
                top == edges.top,
                bottom == edges.bottom,
                available == data@.len(),
                (h - bottom) * w * 4 <= data@.len(),
                y < new_h,
                x <= new_w,
                out@.len() == (y * new_w + x) * 4,
                forall|x2: int, y2: int, c: int|
                    0 <= x2 < new_w && 0 <= y2 && (y2 < y || (y2 == y && x2 < x)) && 0 <= c < 4
                        ==> #[trigger] channel(out@, new_w as int, x2, y2, c) == channel(
                        data@,
                        w as int,
                        edges.left + x2,
                        edges.top + y2,
                        c,
                    ),
            decreases new_w - x,
        {
            proof {
                let r: int = top + y;
                let q: int = h - bottom;
                assert(r * w + w <= q * w) by (nonlinear_arith)
                    requires
                        r + 1 <= q,
                        w >= 0,
                ;
                assert(r * w >= 0) by (nonlinear_arith)
                    requires
                        r >= 0,
                        w >= 0,
                ;
                assert(q * w * 4 == (q * w) * 4);
            }
            let row: usize = (top as u32 + y) as usize;
            let at: usize = (row * w as usize + (left as u32 + x) as usize) * 4;
            let ghost before = out@;
            out.push(data[at]);
            out.push(data[at + 1]);
            out.push(data[at + 2]);
            out.push(data[at + 3]);
            proof {
                assert forall|x2: int, y2: int, c: int|
                    0 <= x2 < new_w && 0 <= y2 && (y2 < y || (y2 == y && x2 < x + 1)) && 0 <= c
                        < 4 implies #[trigger] channel(out@, new_w as int, x2, y2, c) == channel(
                    data@,
                    w as int,
                    edges.left + x2,
                    edges.top + y2,
                    c,
                ) by {
                    if y2 == y && x2 == x {
                        assert((y2 * new_w + x2) * 4 + c == before.len() + c);
                    } else {
                        lemma_earlier(new_w as int, x2, y2, x as int, y as int);
                        assert(channel(before, new_w as int, x2, y2, c) == channel(
                            out@,
                            new_w as int,
                            x2,
                            y2,
                            c,
                        ));
                    }
                }
            }
            x = x + 1;
        }
        assert(y * new_w + new_w == (y + 1) * new_w) by (nonlinear_arith);
        y = y + 1;
    }
    proof {
        assert(new_h * new_w * 4 == new_w * new_h * 4) by (nonlinear_arith);
    }
    (new_w, new_h, out)
}

/// Images of one size that are alike in every pixel are the same.
proof fn lemma_same_pixels(a: Seq<u8>, b: Seq<u8>, w: int, h: int)
    requires
        w >= 1,
        a.len() == w * h * 4,
        b.len() == w * h * 4,
        forall|x: int, y: int, c: int|
            0 <= x < w && 0 <= y < h && 0 <= c < 4 ==> #[trigger] channel(a, w, x, y, c)
                == channel(b, w, x, y, c),
    ensures
        a == b,
{
    assert forall|i: int| 0 <= i < a.len() implies a[i] == b[i] by {
        let p = i / 4;
        let c = i % 4;
        let x = p % w;
        let y = p / w;
        vstd::arithmetic::div_mod::lemma_fundamental_div_mod(p, w);
        vstd::arithmetic::div_mod::lemma_mod_bound(p, w);
        vstd::arithmetic::div_mod::lemma_div_pos_is_pos(p, w);
        assert(w * y == y * w) by (nonlinear_arith);
        assert(y < h) by (nonlinear_arith)
            requires
                y * w + x == p,
                x >= 0,
                w >= 1,
                p < w * h,
        ;
        assert(channel(a, w, x, y, c) == channel(b, w, x, y, c));
    }
    assert(a =~= b);
}

/// Cropping twice is cropping once by the sums of the strips, where that leaves
/// something of the image.
pub proof fn crops_add_up(
    w: u32,
    h: u32,
    data: Seq<u8>,
    e: Strips,
    f: Strips,
    both: Strips,
    first: (u32, u32, Seq<u8>),
    second: (u32, u32, Seq<u8>),
    once: (u32, u32, Seq<u8>),
)
    requires
        data.len() == w * h * 4,
        both.top == e.top + f.top,
        both.bottom == e.bottom + f.bottom,
        both.left == e.left + f.left,
        both.right == e.right + f.right,
        !crops_all(w, h, both),
        is_crop(w, h, data, e, first.0, first.1, first.2),
        is_crop(first.0, first.1, first.2, f, second.0, second.1, second.2),
        is_crop(w, h, data, both, once.0, once.1, once.2),
    ensures
        second == once,
{
    let (w1, h1, d1) = first;
    let (w2, h2, d2) = second;
    assert forall|x: int, y: int, c: int|
        0 <= x < w2 && 0 <= y < h2 && 0 <= c < 4 implies #[trigger] channel(
        d2,
        w2 as int,
        x,
        y,
        c,
    ) == channel(once.2, w2 as int, x, y, c) by {
        assert(channel(d2, w2 as int, x, y, c) == channel(
            d1,
            w1 as int,
            f.left + x,
            f.top + y,
            c,
        ));
        assert(channel(d1, w1 as int, f.left + x, f.top + y, c) == channel(
            data,
            w as int,
            e.left + (f.left + x),
            e.top + (f.top + y),
            c,
        ));
    }
    lemma_same_pixels(d2, once.2, w2 as int, h2 as int);
}

/// Cropping nothing away leaves the image as it is.
pub proof fn empty_crops_change_nothing(
    w: u32,
    h: u32,
    data: Seq<u8>,
    new_w: u32,
    new_h: u32,
    out: Seq<u8>,
)
    requires
        data.len() == w * h * 4,
        is_crop(w, h, data, (Strips { top: 0, bottom: 0, left: 0, right: 0 }), new_w, new_h, out),
    ensures
        new_w == w,
        new_h == h,
        out == data,
{
    if w >= 1 && h >= 1 {
        assert forall|x: int, y: int, c: int|
            0 <= x < w && 0 <= y < h && 0 <= c < 4 implies #[trigger] channel(
            out,
            w as int,
            x,
            y,
            c,
        ) == channel(data, w as int, x, y, c) by {}
        lemma_same_pixels(out, data, w as int, h as int);
    }
}

/// A preview keeps the shape of its frame: its height is to its width as the
/// frame's height is to the frame's width, rounded to a whole pixel. The slack is
/// half a row, and fifteen parts in `2^24`.
pub proof fn small_previews_keep_their_shape(w: u32, h: u32, target: u32)
    requires
        w >= 1,
        1 <= h <= 0x40_0000,
        preview_width(w, target) * h >= w,
    ensures
        2 * apart(preview_height(w, h, target) * w, h * preview_width(w, target)) * 0x100_0000 <= w
            * 0x100_0000 + 30 * (h * preview_width(w, target)),
{
    let pw = preview_width(w, target) as int;
    let (wi, hi) = (w as int, h as int);
    let o: int = one(24) as int;
    vstd::arithmetic::power2::lemma_pow2_pos(149);
    let t = F32::of_int(hi);
    whole_numbers_are_moderate(hi);
    unscaling_is_near(t, wi, pw);
    let r = t.quotient(preview_scale(w, target));
    let x = r.size() as int;
    let hp = hi * pw;
    assert(hp <= hi * wi) by (nonlinear_arith)
        requires
            hp == hi * pw,
            pw <= wi,
            hi >= 0,
    ;
    assert(pw * hi == hp) by (nonlinear_arith)
        requires
            hp == hi * pw,
    ;
    // x w is near t pw, which is near h pw o.
    assert(x * wi >= 0) by (nonlinear_arith)
        requires
            x >= 0,
            wi >= 0,
    ;
    lemma_near_back(t.size() * pw, x * wi, 9);
    lemma_near_scaled(t.size() as int, hi * o, 1, pw);
    assert((hi * o) * pw == hp * o) by (nonlinear_arith)
        requires
            hp == hi * pw,
    ;
    assert(hp * o >= 0) by (nonlinear_arith)
        requires
            hp >= 0,
            o >= 0,
    ;
    lemma_near_chain(x * wi, t.size() * pw, hp * o, 10, 1);
    assert(x * wi <= 2 * (hp * o));
    assert(x <= 0x80_0000 * o) by (nonlinear_arith)
        requires
            x * wi <= 2 * (hp * o),
            hp <= hi * wi,
            hi <= 0x40_0000,
            wi >= 1,
            o > 0,
    ;
    whole_parts_are_exact(r, 0, u32::MAX as int);
    let n = r.rounded().truncated(0, u32::MAX as int);
    let m: int = 0x100_0000;
    let d = apart(n * o, x);
    assert(2 * (d * wi) <= wi * o) by (nonlinear_arith)
        requires
            2 * d <= o,
            wi >= 1,
    ;
    assert(apart((n * wi) * o, x * wi) == d * wi) by (nonlinear_arith)
        requires
            d == apart(n * o, x),
            wi >= 1,
    ;
    let e = apart((n * wi) * o, hp * o);
    assert(e <= d * wi + apart(x * wi, hp * o));
    assert(2 * e * m <= (wi * o) * m + 30 * (hp * o));
    let f = apart(n * wi, hp);
    assert(e == f * o) by (nonlinear_arith)
        requires
            e == apart((n * wi) * o, hp * o),
            f == apart(n * wi, hp),
            o > 0,
    ;
    assert(2 * f * m <= wi * m + 30 * hp) by (nonlinear_arith)
        requires
            2 * (f * o) * m <= (wi * o) * m + 30 * (hp * o),
            o > 0,
    ;
    if n < 1 {
        assert(n * wi == 0) by (nonlinear_arith)
            requires
                n == 0,
        ;
    }
}

/// A half.
proof fn lemma_half()
    ensures
        (F32 { bits: 0x3f00_0000 }) == F32::of_int(1).quotient(F32::of_int(2)),
{
    let half = F32 { bits: 0x3f00_0000 };
    rounding::lemma_pow2_steps();
    let mag: nat = 0x3f00_0000;
    rounding::lemma_quotient(mag, 0x80_0000, 126);
    assert(half.mag() == mag);
    assert(half.size() == 0x80_0000 * vstd::arithmetic::power2::pow2(125));
    vstd::arithmetic::power2::lemma_pow2_adds(23, 125);
    vstd::arithmetic::power2::lemma_pow2_unfold(149);
    middles_are_exact(0, 1);
    let o = one(24);
    assert(1 * o == o);
    vstd::arithmetic::power2::lemma_pow2_pos(149);
    crate::float::exact::whole_numbers_are_exact(1);
    crate::float::exact::whole_numbers_are_exact(2);
    lemma_same_size(half, F32::of_int(1).quotient(F32::of_int(2)));
}

/// Each pixel of a preview is taken from the place in the frame that its own middle
/// falls on: middle `i + 1/2` of `width` preview pixels lies in pixel
/// `(i + 1/2) * w / width` of the frame, but for nine parts in `2^24`.
pub proof fn previews_sample_their_middles(i: int, w: u32, target: u32, len: u32)
    requires
        w >= 1,
        w <= 0x20_0000,
        0 <= i < 0x20_0000,
        (2 * i + 1) * w <= 0x40_0000 * preview_width(w, target),
        len >= 1,
    ensures
        ({
            let n = sample(i, preview_scale(w, target), len);
            let pw = preview_width(w, target) as int;
            &&& 0 <= n < len
            &&& 2 * pw * n * 0x100_0000 <= (2 * i + 1) * w * (0x100_0000 + 9)
            &&& n < len - 1 ==> (2 * i + 1) * w * (0x100_0000 - 9) <= 2 * pw * (n + 1) * 0x100_0000
        }),
{
    let pw = preview_width(w, target) as int;
    let wi = w as int;
    let o: int = one(24) as int;
    vstd::arithmetic::power2::lemma_pow2_pos(149);
    lemma_half();
    middles_are_exact(i, 1);
    let f = F32::of_int(i).sum(F32 { bits: 0x3f00_0000 });
    let k = 2 * i + 1;
    assert(2 * f.value() == k * o);
    assert(k * o > 0) by (nonlinear_arith)
        requires
            k > 0,
            o > 0,
    ;
    if f.negative() {
        assert(f.value() <= 0);
    }
    let s = f.size() as int;
    assert(o <= k * o <= 0x100_0000 * o) by (nonlinear_arith)
        requires
            1 <= k <= 0x100_0000,
            o > 0,
    ;
    assert(moderate(f));
    scaling_is_near(f, wi, pw);
    let p = f.product(preview_scale(w, target));
    let x = p.size() as int;
    let kw = k * wi;
    assert(kw > 0) by (nonlinear_arith)
        requires
            kw == k * wi,
            k >= 1,
            wi >= 1,
    ;
    assert(2 * (s * wi) == kw * o) by (nonlinear_arith)
        requires
            2 * s == k * o,
            kw == k * wi,
    ;
    assert(kw * o > 0) by (nonlinear_arith)
        requires
            kw > 0,
            o > 0,
    ;
    assert(x * pw <= 2 * (s * wi));
    assert(x <= 0x40_0000 * o) by (nonlinear_arith)
        requires
            x * pw <= kw * o,
            kw <= 0x40_0000 * pw,
            pw >= 1,
            o > 0,
    ;
    whole_parts_are_exact(p, 0, u64::MAX as int);
    let n = p.truncated(0, u64::MAX as int);
    let m: int = 0x100_0000;
    let t = sample(i, preview_scale(w, target), len);
    assert(t <= n);
    assert(2 * pw * n * m <= kw * (m + 9)) by (nonlinear_arith)
        requires
            n * o <= x,
            2 * ((x * pw) * m) <= (kw * o) * (m + 8),
            pw >= 1,
            o > 0,
            kw > 0,
            n >= 0,
            m == 0x100_0000,
    ;
    assert(2 * pw * t * m <= 2 * pw * n * m) by (nonlinear_arith)
        requires
            t <= n,
            pw >= 1,
            m == 0x100_0000,
    ;
    if t < len - 1 {
        assert(t == n);
        assert(kw * (m - 9) <= 2 * pw * (n + 1) * m) by (nonlinear_arith)
            requires
                x < (n + 1) * o,
                2 * ((x * pw) * m) >= (kw * o) * (m - 8),
                pw >= 1,
                o > 0,
                kw > 0,
                n >= 0,
                m == 0x100_0000,
        ;
    }
}

/// Each strip is cut off at its own edge: the first kept column comes after the
/// left strip and the last one before the right strip, and rows likewise. A crop
/// that would leave nothing is not made.
pub proof fn crops_cut_at_their_edge(
    w: u32,
    h: u32,
    data: Seq<u8>,
    edges: Strips,
    new_w: u32,
    new_h: u32,
    out: Seq<u8>,
    x: int,
    y: int,
    c: int,
)
    requires
        is_crop(w, h, data, edges, new_w, new_h, out),
        0 <= x < new_w,
        0 <= y < new_h,
        0 <= c < 4,
    ensures
        edges.left + edges.right < w && edges.top + edges.bottom < h ==> {
            &&& new_w + edges.left + edges.right == w
            &&& new_h + edges.top + edges.bottom == h
            &&& channel(out, new_w as int, 0, 0, c) == channel(
                data,
                w as int,
                edges.left as int,
                edges.top as int,
                c,
            )
            &&& channel(out, new_w as int, new_w - 1, new_h - 1, c) == channel(
                data,
                w as int,
                w - edges.right - 1,
                h - edges.bottom - 1,
                c,
            )
            &&& channel(out, new_w as int, x, y, c) == channel(
                data,
                w as int,
                x + edges.left,
                y + edges.top,
                c,
            )
        },
        edges.left + edges.right >= w || edges.top + edges.bottom >= h ==> new_w == w && new_h == h
            && out == data,
{
}

/// Two values are taken for the same if they differ by no more than six, the noise
/// that dithering makes.
pub proof fn noise_is_tolerated(a: u8, b: u8)
    ensures
        close(a, b) == (apart(a as int, b as int) <= 6),
{
}

/// At a scale of one each pixel is its own sample.
proof fn lemma_own_sample(i: int, len: u32)
    requires
        0 <= i < len <= 0x20_0000,
    ensures
        sample(i, F32::of_int(1), len) == i,
{
    let o: int = one(24) as int;
    vstd::arithmetic::power2::lemma_pow2_pos(149);
    lemma_half();
    middles_are_exact(i, 1);
    let f = F32::of_int(i).sum(F32 { bits: 0x3f00_0000 });
    let k = 2 * i + 1;
    assert(2 * f.value() == k * o);
    assert(k * o > 0) by (nonlinear_arith)
        requires
            k > 0,
            o > 0,
    ;
    if f.negative() {
        assert(f.value() <= 0);
    }
    let s = f.size() as int;
    assert(k * o <= 0x100_0000 * o) by (nonlinear_arith)
        requires
            k <= 0x100_0000,
            o > 0,
    ;
    one_is_neutral(f);
    whole_parts_are_exact(f, 0, u64::MAX as int);
    let n = f.truncated(0, u64::MAX as int);
    assert(n == i) by (nonlinear_arith)
        requires
            2 * s == (2 * i + 1) * o,
            n * o <= s,
            s < (n + 1) * o,
            o > 0,
    ;
}

/// A frame that is no wider than its preview may be is kept pixel for pixel.
pub proof fn small_frames_are_kept(
    w: u32,
    h: u32,
    src: &[u8],
    stride: usize,
    target: u32,
    res: (u32, u32, Vec<u8>),
    x: int,
    y: int,
    c: int,
)
    requires
        1 <= w <= target,
        w <= 0x20_0000,
        1 <= h <= 0x20_0000,
        call_ensures(downscale, (w, h, src, stride, target), res),
        0 <= x < w,
        0 <= y < h,
        0 <= c < 4,
    ensures
        res.0 == w,
        res.1 == h,
        channel(res.2@, w as int, x, y, c) == src@[y * stride + x * 4 + c],
{
    whole_numbers_are_moderate(w as int);
    whole_numbers_are_exact(w as int);
    whole_numbers_are_exact(h as int);
    let o: int = one(24) as int;
    vstd::arithmetic::power2::lemma_pow2_pos(149);
    crate::float::single::lemma_zero_size(24);
    let a = F32::of_int(w as int);
    assert(w * o > 0) by (nonlinear_arith)
        requires
            w >= 1,
            o > 0,
    ;
    one_is_neutral(a);
    assert(preview_scale(w, target) == F32::of_int(1));
    one_is_neutral(F32::of_int(h as int));
    whole_rounding(h as int);
    whole_truncation(h as int, u32::MAX as int);
    lemma_own_sample(x, w);
    lemma_own_sample(y, h);
}

} // verus!
