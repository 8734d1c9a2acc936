//! Where the bar and other reserved strips lie in captured frames.

use crate::backend::pixels::{channel, close, range_similar, rows_similar, similar, Strips};
use crate::config::Edge;
use crate::float::bounds::{
    lemma_near_chain, lemma_near_scaled, near, ratios_are_moderate, scaling_is_near,
    whole_numbers_are_moderate, whole_parts_are_exact, zero_times,
};
use crate::float::exact::{exact_limit, whole_numbers_are_exact};
use crate::float::single::F32;
use crate::float::whole::one;
use vstd::prelude::*;

verus! {

/// What a capture session captures, by the compositor object's number.
#[derive(Clone, Copy, Debug, PartialEq, Eq, Structural)]
pub enum CaptureSource {
    Output(u64),
    Workspace(u64),
    Toplevel(u64),
}

/// Workspaces that share a set of outputs.
#[derive(Clone, Debug)]
pub struct Group {
    pub workspaces: Vec<u64>,
    pub outputs: Vec<u64>,
}

/// Geometry of the bar and the outputs as the bar last reported it.
#[derive(Clone, Debug)]
pub struct BarFilter {
    pub edge: Edge,
    pub size: u32,
    /// Logical size per output.
    pub outputs: Vec<(u64, (i32, i32))>,
    /// No frames are wanted.
    pub paused: bool,
    /// Width of preview images, in pixels.
    pub preview_px: u32,
    /// Logical thickness to crop per edge, per output.
    pub clips: Vec<(u64, Strips)>,
}

/// A rectangle in buffer coordinates.
#[derive(Clone, Copy, Debug, PartialEq, Eq, Structural)]
pub struct Rect {
    pub x: i32,
    pub y: i32,
    pub width: i32,
    pub height: i32,
}

/// The first entry of a table for `key`.
pub open spec fn lookup<V>(table: Seq<(u64, V)>, key: u64) -> Option<V>
    decreases table.len(),
{
    if table.len() == 0 {
        None
    } else if table[0].0 == key {
        Some(table[0].1)
    } else {
        lookup(table.skip(1), key)
    }
}

/// The first of `keys` that a table has an entry for, with that entry.
pub open spec fn first_known<V>(keys: Seq<u64>, table: Seq<(u64, V)>) -> Option<(u64, V)>
    decreases keys.len(),
{
    if keys.len() == 0 {
        None
    } else {
        match lookup(table, keys[0]) {
            Some(v) => Some((keys[0], v)),
            None => first_known(keys.skip(1), table),
        }
    }
}

/// The outputs of the first group that `workspace` belongs to.
pub open spec fn outputs_of(groups: Seq<Group>, workspace: u64) -> Option<Seq<u64>>
    decreases groups.len(),
{
    if groups.len() == 0 {
        None
    } else if groups[0].workspaces@.contains(workspace) {
        Some(groups[0].outputs@)
    } else {
        outputs_of(groups.skip(1), workspace)
    }
}

/// The output that a captured workspace is measured by, with its logical size:
/// the first output of its group that the bar has reported.
pub open spec fn measured_output(
    filter: BarFilter,
    groups: Seq<Group>,
    source: CaptureSource,
) -> Option<(u64, (i32, i32))> {
    match source {
        CaptureSource::Workspace(ws) => match outputs_of(groups, ws) {
            Some(outputs) => match first_known(outputs, filter.outputs@) {
                Some((o, (lw, lh))) => if lw <= 0 || lh <= 0 {
                    None
                } else {
                    Some((o, (lw, lh)))
                },
                None => None,
            },
            None => None,
        },
        _ => None,
    }
}

/// `len` logical pixels of an output `logical` pixels long, in pixels of a
/// buffer `buffer` pixels long: the bar's thickness times the ratio.
pub open spec fn strip_length(len: u32, buffer: u32, logical: i32) -> int {
    F32::of_int(len as int).product(
        F32::of_int(buffer as int).quotient(F32::of_int(logical as int)),
    ).raised().truncated(i32::MIN as int, i32::MAX as int)
}

/// A buffer length as a coordinate.
pub open spec fn buffer_length(buffer: u32) -> int {
    F32::of_int(buffer as int).truncated(i32::MIN as int, i32::MAX as int)
}

/// The bar's strip, one pixel thicker than the scaled thickness, along the
/// bar's edge of a buffer.
pub open spec fn strip_rect(
    edge: Edge,
    size: u32,
    buffer: (u32, u32),
    logical: (i32, i32),
) -> Rect {
    let bw = buffer_length(buffer.0) as i32;
    let bh = buffer_length(buffer.1) as i32;
    let sw = (strip_length(size, buffer.0, logical.0) as i32).wrapping_add(1);
    let sh = (strip_length(size, buffer.1, logical.1) as i32).wrapping_add(1);
    match edge {
        Edge::Top => Rect { x: 0, y: 0, width: bw, height: sh },
        Edge::Bottom => Rect { x: 0, y: bh.wrapping_sub(sh), width: bw, height: sh },
        Edge::Left => Rect { x: 0, y: 0, width: sw, height: bh },
        Edge::Right => Rect { x: bw.wrapping_sub(sw), y: 0, width: sw, height: bh },
    }
}

/// The bar's strip in a captured frame, where it is known.
pub open spec fn strip_of(
    filter: Option<BarFilter>,
    groups: Seq<Group>,
    source: CaptureSource,
    buffer: (u32, u32),
) -> Option<Rect> {
    match filter {
        Some(f) => match measured_output(f, groups, source) {
            Some((_, logical)) => Some(strip_rect(f.edge, f.size, buffer, logical)),
            None => None,
        },
        None => None,
    }
}

/// `len` logical pixels scaled to a buffer and rounded up.
pub open spec fn scaled(len: u32, buffer: u32, logical: i32) -> int {
    F32::of_int(len as int).product(
        F32::of_int(buffer as int).quotient(F32::of_int(logical as int)),
    ).raised().truncated(0, u32::MAX as int)
}

/// The crop on the bar's own edge takes in the whole bar.
pub open spec fn covers_bar(edge: Edge, size: u32, clips: Strips) -> bool {
    match edge {
        Edge::Top => clips.top >= size,
        Edge::Bottom => clips.bottom >= size,
        Edge::Left => clips.left >= size,
        Edge::Right => clips.right >= size,
    }
}

pub open spec fn no_strips() -> Strips {
    Strips { top: 0, bottom: 0, left: 0, right: 0 }
}

/// The crop of a captured frame in buffer pixels, and whether it takes in the
/// bar; none where nothing is to be cropped.
pub open spec fn clip_of(
    filter: Option<BarFilter>,
    groups: Seq<Group>,
    source: CaptureSource,
    buffer: (u32, u32),
) -> Option<(Strips, bool)> {
    match filter {
        Some(f) => match measured_output(f, groups, source) {
            Some((output, (lw, lh))) => match lookup(f.clips@, output) {
                Some(clips) => if clips == no_strips() {
                    None
                } else {
                    Some(
                        (
                            Strips {
                                top: scaled(clips.top, buffer.1, lh) as u32,
                                bottom: scaled(clips.bottom, buffer.1, lh) as u32,
                                left: scaled(clips.left, buffer.0, lw) as u32,
                                right: scaled(clips.right, buffer.0, lw) as u32,
                            },
                            covers_bar(f.edge, f.size, clips),
                        ),
                    )
                },
                None => None,
            },
            None => None,
        },
        None => None,
    }
}

fn find_size(table: &Vec<(u64, (i32, i32))>, key: u64) -> (res: Option<(i32, i32)>)
    ensures
        res == lookup(table@, key),
{
    let mut i: usize = 0;
    assert(table@.skip(0) =~= table@);
    while i < table.len()
        invariant
            i <= table.len(),
            lookup(table@, key) == lookup(table@.skip(i as int), key),
        decreases table.len() - i,
    {
        if table[i].0 == key {
            return Some(table[i].1);
        }
        assert(table@.skip(i as int).skip(1) =~= table@.skip(i + 1));
        i = i + 1;
    }
    None
}

fn find_clips(table: &Vec<(u64, Strips)>, key: u64) -> (res: Option<Strips>)
    ensures
        res == lookup(table@, key),
{
    let mut i: usize = 0;
    assert(table@.skip(0) =~= table@);
    while i < table.len()
        invariant
            i <= table.len(),
            lookup(table@, key) == lookup(table@.skip(i as int), key),
        decreases table.len() - i,
    {
        if table[i].0 == key {
            return Some(table[i].1);
        }
        assert(table@.skip(i as int).skip(1) =~= table@.skip(i + 1));
        i = i + 1;
    }
    None
}

fn find_output(keys: &Vec<u64>, table: &Vec<(u64, (i32, i32))>) -> (res: Option<(u64, (i32, i32))>)
    ensures
        res == first_known(keys@, table@),
{
    let mut i: usize = 0;
    assert(keys@.skip(0) =~= keys@);
    while i < keys.len()
        invariant
            i <= keys.len(),
            first_known(keys@, table@) == first_known(keys@.skip(i as int), table@),
        decreases keys.len() - i,
    {
        match find_size(table, keys[i]) {
            Some(size) => {
                return Some((keys[i], size));
            },
            None => {},
        }
        assert(keys@.skip(i as int).skip(1) =~= keys@.skip(i + 1));
        i = i + 1;
    }
    None
}

/// Whether `key` is among `list`.
pub fn has_number(list: &Vec<u64>, key: u64) -> (res: bool)
    ensures
        res == list@.contains(key),
{
    let mut i: usize = 0;
    while i < list.len()
        invariant
            i <= list.len(),
            forall|j: int| 0 <= j < i ==> list@[j] != key,
        decreases list.len() - i,
    {
        if list[i] == key {
            assert(list@[i as int] == key);
            return true;
        }
        i = i + 1;
    }
    false
}

fn find_measured(filter: &BarFilter, groups: &Vec<Group>, source: &CaptureSource) -> (res: Option<
    (u64, (i32, i32)),
>)
    ensures
        res == measured_output(*filter, groups@, *source),
{
    let ws: u64 = match source {
        CaptureSource::Workspace(ws) => *ws,
        _ => {
            return None;
        },
    };
    let mut i: usize = 0;
    assert(groups@.skip(0) =~= groups@);
    while i < groups.len()
        invariant
            i <= groups.len(),
            *source == CaptureSource::Workspace(ws),
            outputs_of(groups@, ws) == outputs_of(groups@.skip(i as int), ws),
        decreases groups.len() - i,
    {
        if has_number(&groups[i].workspaces, ws) {
            match find_output(&groups[i].outputs, &filter.outputs) {
                Some((o, (lw, lh))) => {
                    if lw <= 0 || lh <= 0 {
                        return None;
                    }
                    return Some((o, (lw, lh)));
                },
                None => {
                    return None;
                },
            }
        }
        assert(groups@.skip(i as int).skip(1) =~= groups@.skip(i + 1));
        i = i + 1;
    }
    None
}

fn scaled_product(len: u32, buffer: u32, logical: i32) -> (x: F32)
    ensures
        x == F32::of_int(len as int).product(
            F32::of_int(buffer as int).quotient(F32::of_int(logical as int)),
        ).raised(),
{
    let ratio: F32 = F32::from_u64(buffer as u64).over(&F32::from_i32(logical));
    F32::from_u64(len as u64).times(&ratio).ceil()
}

/// Bar strip rectangle in buffer coordinates for the workspace's output.
pub fn bar_strip(
    filter: &Option<BarFilter>,
    groups: &Vec<Group>,
    source: &CaptureSource,
    buffer_size: (u32, u32),
) -> (res: Option<Rect>)
    ensures
        res == strip_of(*filter, groups@, *source, buffer_size),
{
    let f: &BarFilter = match filter {
        Some(f) => f,
        None => {
            return None;
        },
    };
    let (lw, lh) = match find_measured(f, groups, source) {
        Some((_, s)) => s,
        None => {
            return None;
        },
    };
    let bw: i32 = F32::from_u64(buffer_size.0 as u64).to_i32();
    let bh: i32 = F32::from_u64(buffer_size.1 as u64).to_i32();
    let strip_w: i32 = scaled_product(f.size, buffer_size.0, lw).to_i32().wrapping_add(1);
    let strip_h: i32 = scaled_product(f.size, buffer_size.1, lh).to_i32().wrapping_add(1);
    Some(
        match f.edge {
            Edge::Top => Rect { x: 0, y: 0, width: bw, height: strip_h },
            Edge::Bottom => Rect { x: 0, y: bh.wrapping_sub(strip_h), width: bw, height: strip_h },
            Edge::Left => Rect { x: 0, y: 0, width: strip_w, height: bh },
            Edge::Right => Rect { x: bw.wrapping_sub(strip_w), y: 0, width: strip_w, height: bh },
        },
    )
}

/// Buffer-space crop thickness per edge for the workspace's output, and
/// whether the crop fully covers the bar's own strip.
pub fn clip_for(
    filter: &Option<BarFilter>,
    groups: &Vec<Group>,
    source: &CaptureSource,
    buffer_size: (u32, u32),
) -> (res: Option<(Strips, bool)>)
    ensures
        res == clip_of(*filter, groups@, *source, buffer_size),
{
    let f: &BarFilter = match filter {
        Some(f) => f,
        None => {
            return None;
        },
    };
    let (output, (lw, lh)) = match find_measured(f, groups, source) {
        Some(x) => x,
        None => {
            return None;
        },
    };
    let clips: Strips = match find_clips(&f.clips, output) {
        Some(c) => c,
        None => {
            return None;
        },
    };
    if clips.top == 0 && clips.bottom == 0 && clips.left == 0 && clips.right == 0 {
        return None;
    }
    let own_covered: bool = match f.edge {
        Edge::Top => clips.top >= f.size,
        Edge::Bottom => clips.bottom >= f.size,
        Edge::Left => clips.left >= f.size,
        Edge::Right => clips.right >= f.size,
    };
    Some(
        (
            Strips {
                top: scaled_product(clips.top, buffer_size.1, lh).to_u32(),
                bottom: scaled_product(clips.bottom, buffer_size.1, lh).to_u32(),
                left: scaled_product(clips.left, buffer_size.0, lw).to_u32(),
                right: scaled_product(clips.right, buffer_size.0, lw).to_u32(),
            },
            own_covered,
        ),
    )
}

/// `v`, or 0 where it is negative.
pub open spec fn not_negative(v: int) -> int {
    if v < 0 {
        0
    } else {
        v
    }
}

/// `v` brought into `0 ..= high`.
pub open spec fn clamped(v: int, high: int) -> int {
    if v > high {
        high
    } else {
        not_negative(v)
    }
}

/// Byte `b` of row `y` of a frame of `w` by `h` pixels lies in the strip.
pub open spec fn in_strip(strip: Rect, w: u32, h: u32, y: int, b: int) -> bool {
    &&& not_negative(strip.y as int) <= y < clamped(
        strip.y.wrapping_add(strip.height) as int,
        h as int,
    )
    &&& not_negative(strip.x as int) * 4 <= b < clamped(
        strip.x.wrapping_add(strip.width) as int,
        w as int,
    ) * 4
}

/// Two frames of `w` by `h` pixels are alike in every byte outside the strip.
pub open spec fn alike_outside(strip: Rect, w: u32, h: u32, prev: Seq<u8>, cur: Seq<u8>) -> bool {
    forall|y: int, b: int|
        0 <= y < h && 0 <= b < w * 4 && !in_strip(strip, w, h, y, b) ==> #[trigger] byte_close(
            prev,
            cur,
            y,
            b,
            w * 4,
        )
}

/// Byte `b` of row `y` is alike in two frames.
pub open spec fn byte_close(prev: Seq<u8>, cur: Seq<u8>, y: int, b: int, stride: int) -> bool {
    close(prev[y * stride + b], cur[y * stride + b])
}

/// Two downscaled frames differ at most in the bar's own strip.
pub open spec fn unchanged(
    strip: Option<Rect>,
    size: (u32, u32),
    prev: Seq<u8>,
    cur: Seq<u8>,
    own_clipped: bool,
) -> bool {
    prev.len() == cur.len() && if own_clipped {
        similar(prev, cur)
    } else {
        match strip {
            Some(r) => alike_outside(r, size.0, size.1, prev, cur),
            None => similar(prev, cur),
        }
    }
}

fn clamp_length(v: i32, high: u32) -> (n: u32)
    requires
        high <= i32::MAX,
    ensures
        n == clamped(v as int, high as int),
{
    if v < 0 {
        0
    } else if v as u32 > high {
        high
    } else {
        v as u32
    }
}

/// Byte positions `from .. to` of one row are alike in two frames.
fn row_alike(prev: &[u8], cur: &[u8], start: usize, from: u64, to: u64, stride: u64) -> (res: bool)
    requires
        from <= stride,
        to <= stride,
        start + stride <= prev@.len(),
        prev@.len() == cur@.len(),
    ensures
        res == forall|b: int|
            from <= b < to ==> close(#[trigger] prev@[start + b], cur@[start + b]),
{
    let available: usize = prev.len();
    if from >= to {
        return true;
    }
    let lo: usize = start + from as usize;
    let hi: usize = start + to as usize;
    let res: bool = range_similar(prev, cur, lo, hi);
    proof {
        if res {
            assert forall|b: int| from <= b < to implies close(
                #[trigger] prev@[start + b],
                cur@[start + b],
            ) by {
                assert(lo <= start + b < hi);
            }
        } else {
            let i = choose|i: int|
                lo <= i < hi && !close(#[trigger] prev@[i], #[trigger] cur@[i]);
            assert(!close(prev@[start + (i - start)], cur@[start + (i - start)]));
        }
    }
    res
}

/// Two frames of `w` by `h` pixels are alike in every byte outside the strip.
fn frames_alike(strip: &Rect, w: u32, h: u32, prev: &[u8], cur: &[u8]) -> (res: bool)
    requires
        w <= i32::MAX,
        h <= i32::MAX,
        prev@.len() == cur@.len(),
        w * h * 4 <= prev@.len(),
    ensures
        res == alike_outside(*strip, w, h, prev@, cur@),
{
    let available: usize = prev.len();
    let stride: u64 = w as u64 * 4;
    let sx0: u64 = if strip.x < 0 {
        0
    } else if strip.x as u64 * 4 < stride {
        strip.x as u64 * 4
    } else {
        stride
    };
    let sx1: u64 = clamp_length(strip.x.wrapping_add(strip.width), w) as u64 * 4;
    let sy0: u32 = if strip.y < 0 {
        0
    } else {
        strip.y as u32
    };
    let sy1: u32 = clamp_length(strip.y.wrapping_add(strip.height), h);
    let mut y: u32 = 0;
    let mut start: usize = 0;
    assert(0 * stride == 0);
    while y < h
        invariant
            available == prev@.len(),
            prev@.len() == cur@.len(),
            w <= i32::MAX,
            h <= i32::MAX,
            w * h * 4 <= prev@.len(),
            stride == w * 4,
            sx0 <= stride,
            sx1 <= stride,
            sx0 < stride ==> sx0 == not_negative(strip.x as int) * 4,
            sx0 == stride ==> not_negative(strip.x as int) * 4 >= stride,
            sx1 == clamped(strip.x.wrapping_add(strip.width) as int, w as int) * 4,
            sy0 == not_negative(strip.y as int),
            sy1 == clamped(strip.y.wrapping_add(strip.height) as int, h as int),
            y <= h,
            start == y * stride,
            forall|y2: int, b: int|
                0 <= y2 < y && 0 <= b < w * 4 && !in_strip(*strip, w, h, y2, b)
                    ==> #[trigger] byte_close(prev@, cur@, y2, b, w * 4),
        decreases h - y,
    {
        assert(start + stride <= available) by (nonlinear_arith)
            requires
                start == y * stride,
                y + 1 <= h,
                stride == w * 4,
                w * h * 4 <= available,
                w >= 0,
        ;
        let same: bool = if y < sy0 || y >= sy1 {
            row_alike(prev, cur, start, 0, stride, stride)
        } else {
            row_alike(prev, cur, start, 0, sx0, stride) && row_alike(
                prev,
                cur,
                start,
                sx1,
                stride,
                stride,
            )
        };
        if !same {
            proof {
                let banded = !(y < sy0 || y >= sy1);
                if !banded {
                    let b = choose|b: int|
                        0 <= b < stride && !close(#[trigger] prev@[start + b], cur@[start + b]);
                    assert(!byte_close(prev@, cur@, y as int, b, w * 4));
                    assert(!in_strip(*strip, w, h, y as int, b));
                } else {
                    let b = choose|b: int|
                        ((0 <= b < sx0) || (sx1 <= b < stride)) && !close(
                            #[trigger] prev@[start + b],
                            cur@[start + b],
                        );
                    assert(!byte_close(prev@, cur@, y as int, b, w * 4));
                    assert(!in_strip(*strip, w, h, y as int, b));
                }
            }
            return false;
        }
        proof {
            assert forall|y2: int, b: int|
                0 <= y2 < y + 1 && 0 <= b < w * 4 && !in_strip(*strip, w, h, y2, b)
                    implies #[trigger] byte_close(prev@, cur@, y2, b, w * 4) by {
                if y2 == y {
                    assert(close(prev@[start + b], cur@[start + b]));
                }
            }
            assert((y + 1) * stride == y * stride + stride) by (nonlinear_arith);
        }
        y = y + 1;
        start = start + stride as usize;
    }
    true
}

/// True if two downscaled frames are alike outside the bar strip. A frame from
/// which the bar has been cropped is compared as a whole.
pub fn small_unchanged(
    filter: &Option<BarFilter>,
    groups: &Vec<Group>,
    source: &CaptureSource,
    size: (u32, u32),
    prev: &[u8],
    cur: &[u8],
    own_clipped: bool,
) -> (res: bool)
    requires
        prev@.len() == cur@.len() && !own_clipped && strip_of(*filter, groups@, *source, size)
            is Some ==> {
            &&& size.0 <= i32::MAX
            &&& size.1 <= i32::MAX
            &&& size.0 * size.1 * 4 <= cur@.len()
        },
    ensures
        res == unchanged(strip_of(*filter, groups@, *source, size), size, prev@, cur@, own_clipped),
{
    if prev.len() != cur.len() {
        return false;
    }
    if own_clipped {
        return rows_similar(prev, cur);
    }
    match bar_strip(filter, groups, source, size) {
        Some(strip) => frames_alike(&strip, size.0, size.1, prev, cur),
        None => rows_similar(prev, cur),
    }
}

/// A frame is unchanged from itself, and it does not matter which of two frames
/// came first.
pub proof fn comparing_is_fair(
    strip: Option<Rect>,
    size: (u32, u32),
    a: Seq<u8>,
    b: Seq<u8>,
    own_clipped: bool,
)
    ensures
        unchanged(strip, size, a, a, own_clipped),
        unchanged(strip, size, a, b, own_clipped) == unchanged(strip, size, b, a, own_clipped),
{
    match strip {
        Some(r) => {
            if alike_outside(r, size.0, size.1, a, b) {
                assert forall|y: int, k: int|
                    0 <= y < size.1 && 0 <= k < size.0 * 4 && !in_strip(
                        r,
                        size.0,
                        size.1,
                        y,
                        k,
                    ) implies #[trigger] byte_close(b, a, y, k, size.0 * 4) by {
                    assert(byte_close(a, b, y, k, size.0 * 4));
                }
            }
            if alike_outside(r, size.0, size.1, b, a) {
                assert forall|y: int, k: int|
                    0 <= y < size.1 && 0 <= k < size.0 * 4 && !in_strip(
                        r,
                        size.0,
                        size.1,
                        y,
                        k,
                    ) implies #[trigger] byte_close(a, b, y, k, size.0 * 4) by {
                    assert(byte_close(b, a, y, k, size.0 * 4));
                }
            }
        },
        None => {},
    }
}

/// By how much two channel values differ.
pub open spec fn gap(a: u8, b: u8) -> int {
    if a < b {
        b - a
    } else {
        a - b
    }
}

/// Pixel `(x, y)` lies in a rectangle.
pub open spec fn holds(r: Rect, x: int, y: int) -> bool {
    &&& r.x <= x < r.x + r.width
    &&& r.y <= y < r.y + r.height
}

/// A rectangle whose ends are coordinates.
pub open spec fn bounded(r: Rect) -> bool {
    &&& i32::MIN <= r.x + r.width <= i32::MAX
    &&& i32::MIN <= r.y + r.height <= i32::MAX
}

/// A frame has changed where a channel of any pixel outside the bar's strip
/// differs by more than the dither noise of six: left or right of the strip,
/// above or below it.
pub proof fn changes_beside_the_bar_are_seen(
    r: Rect,
    size: (u32, u32),
    prev: Seq<u8>,
    cur: Seq<u8>,
    x: int,
    y: int,
    c: int,
)
    requires
        bounded(r),
        0 <= x < size.0,
        0 <= y < size.1,
        0 <= c < 4,
        x < r.x || x >= r.x + r.width || y < r.y || y >= r.y + r.height,
        gap(channel(prev, size.0 as int, x, y, c), channel(cur, size.0 as int, x, y, c)) > 6,
    ensures
        !unchanged(Some(r), size, prev, cur, false),
{
    let w = size.0 as int;
    let b = x * 4 + c;
    assert((y * w + x) * 4 + c == y * (w * 4) + b) by (nonlinear_arith)
        requires
            b == x * 4 + c,
    ;
    assert(!byte_close(prev, cur, y, b, w * 4));
    assert(!in_strip(r, size.0, size.1, y, b));
}

/// What happens inside the bar's strip does not count: frames that differ by
/// no more than the noise everywhere else are unchanged.
pub proof fn changes_under_the_bar_are_ignored(
    r: Rect,
    size: (u32, u32),
    prev: Seq<u8>,
    cur: Seq<u8>,
)
    requires
        bounded(r),
        prev.len() == cur.len(),
        forall|x: int, y: int, c: int|
            0 <= x < size.0 && 0 <= y < size.1 && 0 <= c < 4 && !holds(r, x, y) ==> gap(
                #[trigger] channel(prev, size.0 as int, x, y, c),
                channel(cur, size.0 as int, x, y, c),
            ) <= 6,
    ensures
        unchanged(Some(r), size, prev, cur, false),
{
    let w = size.0 as int;
    assert forall|y: int, b: int|
        0 <= y < size.1 && 0 <= b < size.0 * 4 && !in_strip(r, size.0, size.1, y, b)
            implies #[trigger] byte_close(prev, cur, y, b, size.0 * 4) by {
        let x = b / 4;
        let c = b % 4;
        assert((y * w + x) * 4 + c == y * (w * 4) + b) by (nonlinear_arith)
            requires
                b == x * 4 + c,
        ;
        assert(!holds(r, x, y));
        assert(gap(channel(prev, w, x, y, c), channel(cur, w, x, y, c)) <= 6);
    }
}

/// Without a strip to leave out every byte counts, and so it does in a frame
/// from which the bar has been cropped.
pub proof fn whole_frames_are_compared(
    strip: Option<Rect>,
    size: (u32, u32),
    prev: Seq<u8>,
    cur: Seq<u8>,
    cropped: bool,
)
    requires
        cropped || strip is None,
    ensures
        unchanged(strip, size, prev, cur, cropped) == (prev.len() == cur.len() && forall|i: int|
            0 <= i < prev.len() ==> gap(#[trigger] prev[i], cur[i]) <= 6),
{
    if prev.len() == cur.len() && forall|i: int|
        0 <= i < prev.len() ==> gap(#[trigger] prev[i], cur[i]) <= 6 {
        assert forall|i: int| 0 <= i < prev.len() implies close(
            #[trigger] prev[i],
            #[trigger] cur[i],
        ) by {
            assert(gap(prev[i], cur[i]) <= 6);
        }
    }
}

/// `n` pixels of a buffer are the least that cover `len` of `logical` pixels of an
/// output that the buffer shows, but for ten parts in `2^24`.
pub open spec fn just_covers(n: int, len: int, buffer: int, logical: int) -> bool {
    &&& n * logical * 0x100_0000 >= len * buffer * (0x100_0000 - 10)
    &&& (n - 1) * logical * 0x100_0000 <= len * buffer * (0x100_0000 + 10)
}

/// Lengths scale with the buffer: `len` pixels of an output become as many pixels
/// of a frame as show the same part of it, rounded up. Nothing stays nothing.
pub proof fn lengths_scale_with_the_buffer(len: u32, buffer: u32, logical: i32)
    requires
        buffer >= 1,
        logical >= 1,
        len * buffer <= 0x40_0000 * logical,
    ensures
        scaled(len, buffer, logical) == strip_length(len, buffer, logical),
        0 <= scaled(len, buffer, logical) <= exact_limit(),
        len >= 1 ==> just_covers(
            scaled(len, buffer, logical),
            len as int,
            buffer as int,
            logical as int,
        ),
        len == 0 ==> scaled(len, buffer, logical) == 0,
{
    let (l, w, h) = (len as int, buffer as int, logical as int);
    let ratio = F32::of_int(w).quotient(F32::of_int(h));
    let o: int = one(24) as int;
    vstd::arithmetic::power2::lemma_pow2_pos(149);
    ratios_are_moderate(w, h);
    if len == 0 {
        zero_times(ratio);
        whole_numbers_are_exact(0);
        assert(0 * o == 0) by (nonlinear_arith);
        let zero = F32::of_int(0);
        whole_parts_are_exact(zero, i32::MIN as int, i32::MAX as int);
        whole_parts_are_exact(zero, 0, u32::MAX as int);
        let a = zero.raised().truncated(i32::MIN as int, i32::MAX as int);
        let b = zero.raised().truncated(0, u32::MAX as int);
        lemma_one_whole(0, o, a, b);
    } else {
        let t = F32::of_int(l);
        whole_numbers_are_moderate(l);
        scaling_is_near(t, w, h);
        let p = t.product(ratio);
        let x = p.size() as int;
        let lw = l * w;
        assert(lw > 0) by (nonlinear_arith)
            requires
                lw == l * w,
                l >= 1,
                w >= 1,
        ;
        lemma_near_scaled(t.size() as int, l * o, 1, w);
        assert((l * o) * w == lw * o) by (nonlinear_arith)
            requires
                lw == l * w,
        ;
        assert(lw * o > 0) by (nonlinear_arith)
            requires
                lw > 0,
                o > 0,
        ;
        lemma_near_chain(x * h, t.size() * w, lw * o, 8, 1);
        assert(near(x * h, lw * o, 10));
        assert(x * h <= 2 * (lw * o));
        assert(x <= 0x80_0000 * o) by (nonlinear_arith)
            requires
                x * h <= 2 * (lw * o),
                lw <= 0x40_0000 * h,
                h >= 1,
                o > 0,
        ;
        whole_parts_are_exact(p, i32::MIN as int, i32::MAX as int);
        whole_parts_are_exact(p, 0, u32::MAX as int);
        let a = p.raised().truncated(i32::MIN as int, i32::MAX as int);
        let b = p.raised().truncated(0, u32::MAX as int);
        lemma_one_whole(x, o, a, b);
        assert(a <= exact_limit()) by (nonlinear_arith)
            requires
                (a - 1) * o < x,
                x <= 0x80_0000 * o,
                o > 0,
        ;
        let n: int = 0x100_0000;
        assert(a * h * n >= lw * (n - 10)) by (nonlinear_arith)
            requires
                x <= a * o,
                (x * h) * n >= (lw * o) * (n - 10),
                h >= 1,
                o > 0,
                n == 0x100_0000,
        ;
        assert((a - 1) * h * n <= lw * (n + 10)) by (nonlinear_arith)
            requires
                (a - 1) * o < x,
                (x * h) * n <= (lw * o) * (n + 10),
                h >= 1,
                o > 0,
                n == 0x100_0000,
        ;
    }
}

/// Only one whole number is the least that reaches a length.
proof fn lemma_one_whole(x: int, o: int, a: int, b: int)
    requires
        o > 0,
        (a - 1) * o < x <= a * o,
        (b - 1) * o < x <= b * o,
    ensures
        a == b,
        x == 0 ==> a == 0,
{
    assert(a - 1 < b) by (nonlinear_arith)
        requires
            (a - 1) * o < b * o,
            o > 0,
    ;
    assert(b - 1 < a) by (nonlinear_arith)
        requires
            (b - 1) * o < a * o,
            o > 0,
    ;
    if x == 0 {
        assert(a - 1 < 0 && a >= 0) by (nonlinear_arith)
            requires
                (a - 1) * o < 0 <= a * o,
                o > 0,
        ;
    }
}

/// The bar's strip lies along the bar's edge of the frame, from one end to the
/// other: it reaches the edge, and one pixel further into the frame than the bar
/// is thick there.
pub proof fn strips_lie_along_their_edge(
    edge: Edge,
    size: u32,
    buffer: (u32, u32),
    logical: (i32, i32),
)
    requires
        1 <= buffer.0 <= 0x80_0000,
        1 <= buffer.1 <= 0x80_0000,
        logical.0 >= 1,
        logical.1 >= 1,
        size * buffer.0 <= 0x40_0000 * logical.0,
        size * buffer.1 <= 0x40_0000 * logical.1,
    ensures
        ({
            let r = strip_rect(edge, size, buffer, logical);
            &&& bounded(r)
            &&& edge is Top || edge is Bottom ==> {
                &&& r.x == 0 && r.width == buffer.0
                &&& size >= 1 ==> just_covers(
                    r.height - 1,
                    size as int,
                    buffer.1 as int,
                    logical.1 as int,
                )
            }
            &&& edge is Left || edge is Right ==> {
                &&& r.y == 0 && r.height == buffer.1
                &&& size >= 1 ==> just_covers(
                    r.width - 1,
                    size as int,
                    buffer.0 as int,
                    logical.0 as int,
                )
            }
            &&& edge is Top ==> r.y == 0
            &&& edge is Bottom ==> r.y + r.height == buffer.1
            &&& edge is Left ==> r.x == 0
            &&& edge is Right ==> r.x + r.width == buffer.0
        }),
{
    lengths_scale_with_the_buffer(size, buffer.0, logical.0);
    lengths_scale_with_the_buffer(size, buffer.1, logical.1);
    lemma_buffer_length(buffer.0);
    lemma_buffer_length(buffer.1);
}

proof fn lemma_buffer_length(buffer: u32)
    requires
        buffer <= 0x80_0000,
    ensures
        buffer_length(buffer) == buffer,
{
    let x = F32::of_int(buffer as int);
    let o: int = one(24) as int;
    vstd::arithmetic::power2::lemma_pow2_pos(149);
    whole_numbers_are_exact(buffer as int);
    assert(buffer * o <= 0x100_0000 * o) by (nonlinear_arith)
        requires
            buffer <= 0x100_0000,
            o > 0,
    ;
    whole_parts_are_exact(x, i32::MIN as int, i32::MAX as int);
    let n = buffer_length(buffer);
    let b = buffer as int;
    assert(n == b) by (nonlinear_arith)
        requires
            n * o <= b * o,
            b * o < (n + 1) * o,
            o > 0,
    ;
}

/// The thickness at an edge.
pub open spec fn strip_at(c: Strips, edge: Edge) -> u32 {
    match edge {
        Edge::Top => c.top,
        Edge::Bottom => c.bottom,
        Edge::Left => c.left,
        Edge::Right => c.right,
    }
}

/// A frame is cropped at each edge by what is cropped of its output there, in its
/// own pixels. The bar counts as cropped where the crop at its own edge is at least
/// as thick as the bar.
pub proof fn frames_are_cropped_like_their_output(
    f: BarFilter,
    groups: Seq<Group>,
    source: CaptureSource,
    buffer: (u32, u32),
    output: u64,
    logical: (i32, i32),
    clips: Strips,
    edge: Edge,
)
    requires
        measured_output(f, groups, source) == Some((output, logical)),
        lookup(f.clips@, output) == Some(clips),
        buffer.0 >= 1,
        buffer.1 >= 1,
        logical.0 >= 1,
        logical.1 >= 1,
        strip_at(clips, edge) >= 1,
        edge is Top || edge is Bottom ==> strip_at(clips, edge) * buffer.1 <= 0x40_0000
            * logical.1,
        edge is Left || edge is Right ==> strip_at(clips, edge) * buffer.0 <= 0x40_0000
            * logical.0,
    ensures
        clip_of(Some(f), groups, source, buffer) matches Some((strips, own)) && {
            &&& edge is Top || edge is Bottom ==> just_covers(
                strip_at(strips, edge) as int,
                strip_at(clips, edge) as int,
                buffer.1 as int,
                logical.1 as int,
            )
            &&& edge is Left || edge is Right ==> just_covers(
                strip_at(strips, edge) as int,
                strip_at(clips, edge) as int,
                buffer.0 as int,
                logical.0 as int,
            )
            &&& own == (strip_at(clips, f.edge) >= f.size)
        },
{
    if edge is Top || edge is Bottom {
        lengths_scale_with_the_buffer(strip_at(clips, edge), buffer.1, logical.1);
    } else {
        lengths_scale_with_the_buffer(strip_at(clips, edge), buffer.0, logical.0);
    }
}

/// An output without a size.
pub open spec fn unmeasured(entry: (u64, (i32, i32))) -> bool {
    let (_, (width, height)) = entry;
    width <= 0 || height <= 0
}

/// Nothing is known of where the bar is, and nothing is cropped, in a frame of
/// anything but a workspace, before the bar has reported, and where the output's
/// size is not known.
pub proof fn only_workspaces_have_strips(
    filter: Option<BarFilter>,
    groups: Seq<Group>,
    source: CaptureSource,
    buffer: (u32, u32),
)
    ensures
        filter is None || !(source is Workspace) ==> strip_of(filter, groups, source, buffer)
            is None && clip_of(filter, groups, source, buffer) is None,
        filter matches Some(f) ==> (forall|k: int|
            0 <= k < f.outputs@.len() ==> unmeasured(#[trigger] f.outputs@[k]))
            ==> strip_of(filter, groups, source, buffer) is None
            && clip_of(filter, groups, source, buffer) is None,
{
    if let Some(f) = filter {
        if let CaptureSource::Workspace(ws) = source {
            if let Some(outputs) = outputs_of(groups, ws) {
                lemma_first_known(outputs, f.outputs@);
            }
        }
    }
}

proof fn lemma_first_known<V>(keys: Seq<u64>, table: Seq<(u64, V)>)
    ensures
        first_known(keys, table) matches Some((k, v)) ==> keys.contains(k) && table.contains(
            (k, v),
        ),
    decreases keys.len(),
{
    if keys.len() > 0 {
        assert(keys[0] == keys[0]);
        match lookup(table, keys[0]) {
            Some(v) => {
                lemma_lookup_entry(table, keys[0]);
            },
            None => {
                lemma_first_known(keys.skip(1), table);
                if let Some((k, v)) = first_known(keys.skip(1), table) {
                    let i = keys.skip(1).index_of(k);
                    assert(keys[i + 1] == k);
                }
            },
        }
    }
}

proof fn lemma_lookup_entry<V>(table: Seq<(u64, V)>, key: u64)
    ensures
        lookup(table, key) matches Some(v) ==> table.contains((key, v)),
        lookup(table, key) is None ==> forall|k: int|
            0 <= k < table.len() ==> (#[trigger] table[k]).0 != key,
    decreases table.len(),
{
    if table.len() > 0 {
        if table[0].0 == key {
            assert(table[0] == (key, table[0].1));
        } else {
            let rest = table.skip(1);
            lemma_lookup_entry(rest, key);
            if let Some(v) = lookup(rest, key) {
                let i = rest.index_of((key, v));
                assert(table[i + 1] == (key, v));
            } else {
                assert forall|k: int| 0 <= k < table.len() implies (#[trigger] table[k]).0
                    != key by {
                    if k > 0 {
                        assert(rest[k - 1] == table[k]);
                    }
                }
            }
        }
    }
}

/// A workspace is measured by the first output of its group that the bar has
/// reported.
pub proof fn workspaces_are_measured_by_their_group(
    f: BarFilter,
    groups: Seq<Group>,
    ws: u64,
    g: int,
    o: int,
)
    requires
        0 <= g < groups.len(),
        groups[g].workspaces@.contains(ws),
        forall|k: int| 0 <= k < g ==> !(#[trigger] groups[k]).workspaces@.contains(ws),
        0 <= o < groups[g].outputs@.len(),
        lookup(f.outputs@, groups[g].outputs@[o]) matches Some((lw, lh)) && lw >= 1 && lh >= 1,
        forall|k: int|
            0 <= k < o ==> lookup(f.outputs@, #[trigger] groups[g].outputs@[k]) is None,
    ensures
        measured_output(f, groups, CaptureSource::Workspace(ws)) == Some(
            (groups[g].outputs@[o], lookup(f.outputs@, groups[g].outputs@[o])->0),
        ),
{
    lemma_group(groups, ws, g);
    lemma_known_first(groups[g].outputs@, f.outputs@, o);
}

proof fn lemma_group(groups: Seq<Group>, ws: u64, g: int)
    requires
        0 <= g < groups.len(),
        groups[g].workspaces@.contains(ws),
        forall|k: int| 0 <= k < g ==> !(#[trigger] groups[k]).workspaces@.contains(ws),
    ensures
        outputs_of(groups, ws) == Some(groups[g].outputs@),
    decreases groups.len(),
{
    if g > 0 {
        let rest = groups.skip(1);
        assert(!groups[0].workspaces@.contains(ws));
        assert(rest[g - 1] == groups[g]);
        assert forall|k: int| 0 <= k < g - 1 implies !(#[trigger] rest[k]).workspaces@.contains(
            ws,
        ) by {
            assert(rest[k] == groups[k + 1]);
        }
        lemma_group(rest, ws, g - 1);
    }
}

proof fn lemma_known_first<V>(keys: Seq<u64>, table: Seq<(u64, V)>, o: int)
    requires
        0 <= o < keys.len(),
        lookup(table, keys[o]) is Some,
        forall|k: int| 0 <= k < o ==> lookup(table, #[trigger] keys[k]) is None,
    ensures
        first_known(keys, table) == Some((keys[o], lookup(table, keys[o])->0)),
    decreases keys.len(),
{
    if o > 0 {
        let rest = keys.skip(1);
        assert(lookup(table, keys[0]) is None);
        assert(rest[o - 1] == keys[o]);
        assert forall|k: int| 0 <= k < o - 1 implies lookup(table, #[trigger] rest[k]) is None by {
            assert(rest[k] == keys[k + 1]);
        }
        lemma_known_first(rest, table, o - 1);
    }
}

/// Where nothing is cropped of an output, nothing is cropped of its frames, and the bar
/// is not cropped either.
pub proof fn empty_crops_are_none(
    f: BarFilter,
    groups: Seq<Group>,
    source: CaptureSource,
    buffer: (u32, u32),
    output: u64,
    logical: (i32, i32),
    clips: Strips,
)
    requires
        measured_output(f, groups, source) == Some((output, logical)),
        lookup(f.clips@, output) == Some(clips),
    ensures
        clip_of(Some(f), groups, source, buffer) is None == (clips.top == 0 && clips.bottom == 0
            && clips.left == 0 && clips.right == 0),
        strip_of(Some(f), groups, source, buffer) is Some,
{
}

} // verus!
