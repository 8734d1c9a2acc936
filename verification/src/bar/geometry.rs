//! Sizes of the bar's surfaces, and the strips that other surfaces reserve.

use crate::backend::captures::WorkspaceInfo;
use crate::backend::pixels::Strips;
use crate::backend::strips::has_number;
use crate::config::{Clip, Config, Edge, SurfaceSize};
use crate::float::bounds::{
    lemma_near_scaled, middles_are_exact, moderate_quotients_are_near, near,
    whole_differences_are_exact,
    whole_numbers_are_moderate, whole_order, whole_rounding,
};
use crate::float::exact::{
    exact_limit, whole_numbers_are_exact, whole_sums_are_exact, whole_truncation,
};
use crate::float::single::{below_is_order_of_values, F32};
use crate::float::whole::one;
use crate::text::same_text;
use crate::view;
use vstd::prelude::*;

verus! {

/// Sliver left on screen for hover reveal while auto-hidden.
pub const AUTOHIDE_HANDLE: u32 = 4;

/// Milliseconds without pointer focus before the bar hides.
pub const AUTOHIDE_WAIT: u64 = 1000;

/// The namespace of the bar's own surfaces.
pub const BAR_NAMESPACE: &'static str = "workspaces-bar";

/// Margins of a surface: top, right, bottom, left.
pub type Margin = (i32, i32, i32, i32);

/// A rectangle in logical coordinates.
#[derive(Clone, Copy, Debug, PartialEq, Eq, Structural)]
pub struct Rectangle {
    pub x: F32,
    pub y: F32,
    pub width: F32,
    pub height: F32,
}

/// A screen.
#[derive(Clone, Debug)]
pub struct Output {
    pub handle: u64,
    pub name: String,
    pub width: i32,
    pub height: i32,
}

/// A layer surface that reserves a strip of an output, as the probe surface
/// there reports it.
#[derive(Clone, Debug)]
pub struct Reserved {
    /// The probe surface that reported it.
    pub probe: u64,
    /// What the compositor calls it.
    pub identifier: String,
    pub output: u64,
    pub namespace: String,
    pub exclusive: u32,
    pub rect: Rectangle,
}

/// A preview image that is shown: its size, and the number of its pixels.
#[derive(Clone, Copy, Debug, PartialEq, Eq, Structural)]
pub struct Thumbnail {
    pub width: u32,
    pub height: u32,
    pub image: u64,
}

/// A workspace and what is shown of it.
#[derive(Clone, Debug)]
pub struct Workspace {
    pub info: WorkspaceInfo,
    pub img: Option<Thumbnail>,
    pub outputs: Vec<u64>,
}

impl Workspace {
    pub fn handle(&self) -> (h: u64)
        ensures
            h == self.info.handle,
    {
        self.info.handle
    }

    pub fn is_active(&self) -> (b: bool)
        ensures
            b == self.info.active,
    {
        self.info.active
    }

    pub open spec fn renamable(self) -> bool {
        self.info.cosmic_handle && self.info.cosmic_rename
    }

    pub fn can_rename(&self) -> (b: bool)
        ensures
            b == self.renamable(),
    {
        self.info.cosmic_handle && self.info.cosmic_rename
    }

    /// The workspace is shown on an output.
    pub open spec fn on(self, output: u64) -> bool {
        self.outputs@.contains(output)
    }
}

/// How far a hidden bar is moved off the screen: all but the handle.
pub open spec fn hidden_offset(size: u32) -> i32 {
    0i32.wrapping_sub(
        ((if size < AUTOHIDE_HANDLE {
            0
        } else {
            size - AUTOHIDE_HANDLE
        }) as u32) as i32,
    )
}

/// The margins that slide the bar off the screen: negative on its edge.
pub open spec fn hiding_margin(edge: Edge, size: u32) -> Margin {
    let offset = hidden_offset(size);
    match edge {
        Edge::Top => (offset, 0, 0, 0),
        Edge::Bottom => (0, 0, offset, 0),
        Edge::Left => (0, 0, 0, offset),
        Edge::Right => (0, offset, 0, 0),
    }
}

/// The margins that slide the bar off the screen.
pub fn hidden_margin(edge: Edge, size: u32) -> (m: Margin)
    ensures
        m == hiding_margin(edge, size),
{
    let offset: i32 = 0i32.wrapping_sub(size.saturating_sub(AUTOHIDE_HANDLE) as i32);
    match edge {
        Edge::Top => (offset, 0, 0, 0),
        Edge::Bottom => (0, 0, offset, 0),
        Edge::Left => (0, 0, 0, offset),
        Edge::Right => (0, offset, 0, 0),
    }
}

/// A hidden bar leaves just the handle on the screen.
pub proof fn hidden_bar_leaves_handle(size: u32)
    requires
        AUTOHIDE_HANDLE <= size <= i32::MAX,
    ensures
        size + hidden_offset(size) == AUTOHIDE_HANDLE,
{
}

/// The first output with this handle.
pub open spec fn output_at(outputs: Seq<Output>, handle: u64) -> Option<Output>
    decreases outputs.len(),
{
    if outputs.len() == 0 {
        None
    } else if outputs[0].handle == handle {
        Some(outputs[0])
    } else {
        output_at(outputs.skip(1), handle)
    }
}

/// The place of the first output with this handle.
pub fn find_output(outputs: &Vec<Output>, handle: u64) -> (at: Option<usize>)
    ensures
        match at {
            Some(i) => {
                &&& i < outputs@.len()
                &&& outputs@[i as int].handle == handle
                &&& forall|k: int| 0 <= k < i ==> (#[trigger] outputs@[k]).handle != handle
                &&& output_at(outputs@, handle) == Some(outputs@[i as int])
            },
            None => {
                &&& forall|k: int|
                    0 <= k < outputs@.len() ==> (#[trigger] outputs@[k]).handle != handle
                &&& output_at(outputs@, handle) is None
            },
        },
{
    let mut i: usize = 0;
    assert(outputs@.skip(0) =~= outputs@);
    while i < outputs.len()
        invariant
            i <= outputs.len(),
            forall|k: int| 0 <= k < i ==> (#[trigger] outputs@[k]).handle != handle,
            output_at(outputs@, handle) == output_at(outputs@.skip(i as int), handle),
        decreases outputs.len() - i,
    {
        if outputs[i].handle == handle {
            return Some(i);
        }
        assert(outputs@.skip(i as int).skip(1) =~= outputs@.skip(i + 1));
        i = i + 1;
    }
    None
}

/// The larger of two lengths.
pub open spec fn longer(a: u32, b: int) -> u32 {
    if a < b {
        b as u32
    } else {
        a
    }
}

/// Half of a number.
pub open spec fn half(x: F32) -> F32 {
    x.quotient(F32::of_int(2))
}

/// A reserved strip counts for the crop.
pub open spec fn counts(r: Reserved, clip: Clip, output: u64) -> bool {
    r.output == output && r.exclusive != 0 && (clip != Clip::OwnBar || r.namespace@
        == BAR_NAMESPACE@)
}

/// The crop widened to take in a reserved strip. A strip that is wider than
/// high lies at the top or the bottom, whichever its middle is nearer to; any
/// other at the left or the right.
pub open spec fn widened(c: Strips, r: Rectangle, w: F32, h: F32) -> Strips {
    if r.height.below(r.width) || r.height.same(r.width) {
        if r.y.sum(half(r.height)).below(half(h)) {
            Strips {
                top: longer(c.top, r.y.sum(r.height).rounded().truncated(0, u32::MAX as int)),
                ..c
            }
        } else {
            Strips {
                bottom: longer(
                    c.bottom,
                    h.sum(r.y.negated()).rounded().truncated(0, u32::MAX as int),
                ),
                ..c
            }
        }
    } else if r.x.sum(half(r.width)).below(half(w)) {
        Strips {
            left: longer(c.left, r.x.sum(r.width).rounded().truncated(0, u32::MAX as int)),
            ..c
        }
    } else {
        Strips {
            right: longer(c.right, w.sum(r.x.negated()).rounded().truncated(0, u32::MAX as int)),
            ..c
        }
    }
}

/// The crop that takes in all reserved strips that count.
pub open spec fn crop_of(
    reserved: Seq<Reserved>,
    clip: Clip,
    output: u64,
    w: F32,
    h: F32,
) -> Strips
    decreases reserved.len(),
{
    if reserved.len() == 0 {
        Strips { top: 0, bottom: 0, left: 0, right: 0 }
    } else {
        let rest = crop_of(reserved.drop_last(), clip, output, w, h);
        if counts(reserved.last(), clip, output) {
            widened(rest, reserved.last().rect, w, h)
        } else {
            rest
        }
    }
}

/// The crop does not depend on the order in which reserved strips are taken in.
pub proof fn strips_join_in_any_order(c: Strips, a: Rectangle, b: Rectangle, w: F32, h: F32)
    ensures
        widened(widened(c, a, w, h), b, w, h) == widened(widened(c, b, w, h), a, w, h),
{
    lemma_u32_range(a.y.sum(a.height).rounded());
    lemma_u32_range(b.y.sum(b.height).rounded());
    lemma_u32_range(h.sum(a.y.negated()).rounded());
    lemma_u32_range(h.sum(b.y.negated()).rounded());
    lemma_u32_range(a.x.sum(a.width).rounded());
    lemma_u32_range(b.x.sum(b.width).rounded());
    lemma_u32_range(w.sum(a.x.negated()).rounded());
    lemma_u32_range(w.sum(b.x.negated()).rounded());
}

proof fn lemma_u32_range(x: F32)
    ensures
        0 <= x.truncated(0, u32::MAX as int) <= u32::MAX,
{
}

/// A reserved strip only ever widens the crop.
pub proof fn crops_only_widen(c: Strips, r: Rectangle, w: F32, h: F32)
    ensures
        ({
            let n = widened(c, r, w, h);
            n.top >= c.top && n.bottom >= c.bottom && n.left >= c.left && n.right >= c.right
        }),
{
    lemma_u32_range(r.y.sum(r.height).rounded());
    lemma_u32_range(h.sum(r.y.negated()).rounded());
    lemma_u32_range(r.x.sum(r.width).rounded());
    lemma_u32_range(w.sum(r.x.negated()).rounded());
}

/// Logical thickness to crop per edge on an output.
pub open spec fn clips_on(
    clip: Clip,
    outputs: Seq<Output>,
    reserved: Seq<Reserved>,
    output: u64,
) -> Strips {
    match output_at(outputs, output) {
        Some(o) => if clip == Clip::Nothing {
            Strips { top: 0, bottom: 0, left: 0, right: 0 }
        } else {
            crop_of(
                reserved,
                clip,
                output,
                F32::of_int(o.width as int),
                F32::of_int(o.height as int),
            )
        },
        None => Strips { top: 0, bottom: 0, left: 0, right: 0 },
    }
}

fn widen(c: Strips, r: &Rectangle, w: &F32, h: &F32) -> (res: Strips)
    ensures
        res == widened(c, *r, *w, *h),
{
    let two: F32 = F32::from_u64(2);
    let mut res: Strips = c;
    if r.height.less(&r.width) || r.height.equals(&r.width) {
        if r.y.plus(&r.height.over(&two)).less(&h.over(&two)) {
            let n: u32 = r.y.plus(&r.height).round().to_u32();
            if res.top < n {
                res.top = n;
            }
        } else {
            let n: u32 = h.minus(&r.y).round().to_u32();
            if res.bottom < n {
                res.bottom = n;
            }
        }
    } else if r.x.plus(&r.width.over(&two)).less(&w.over(&two)) {
        let n: u32 = r.x.plus(&r.width).round().to_u32();
        if res.left < n {
            res.left = n;
        }
    } else {
        let n: u32 = w.minus(&r.x).round().to_u32();
        if res.right < n {
            res.right = n;
        }
    }
    res
}

/// Logical thickness to crop per edge on an output.
pub fn edge_clips(
    clip: Clip,
    outputs: &Vec<Output>,
    reserved: &Vec<Reserved>,
    output: u64,
) -> (clips: Strips)
    ensures
        clips == clips_on(clip, outputs@, reserved@, output),
{
    let mut clips: Strips = Strips { top: 0, bottom: 0, left: 0, right: 0 };
    let at: usize = match find_output(outputs, output) {
        Some(i) => i,
        None => {
            return clips;
        },
    };
    if clip == Clip::Nothing {
        return clips;
    }
    let w: F32 = F32::from_i32(outputs[at].width);
    let h: F32 = F32::from_i32(outputs[at].height);
    let mut i: usize = 0;
    assert(reserved@.take(0) =~= Seq::empty());
    while i < reserved.len()
        invariant
            i <= reserved.len(),
            clips == crop_of(reserved@.take(i as int), clip, output, w, h),
        decreases reserved.len() - i,
    {
        let r: &Reserved = &reserved[i];
        assert(reserved@.take(i + 1).drop_last() =~= reserved@.take(i as int));
        if r.output == output && r.exclusive != 0 && (clip != Clip::OwnBar || same_text(
            &r.namespace,
            BAR_NAMESPACE,
        )) {
            clips = widen(clips, &r.rect, &w, &h);
        }
        i = i + 1;
    }
    assert(reserved@.take(reserved@.len() as int) =~= reserved@);
    clips
}

/// The workspaces on an output, in their order.
pub open spec fn shown_on(workspaces: Seq<Workspace>, output: u64) -> Seq<Workspace>
    decreases workspaces.len(),
{
    if workspaces.len() == 0 {
        Seq::empty()
    } else if workspaces.last().on(output) {
        shown_on(workspaces.drop_last(), output).push(workspaces.last())
    } else {
        shown_on(workspaces.drop_last(), output)
    }
}

/// How many workspaces are shown on an output.
pub fn workspaces_on(workspaces: &Vec<Workspace>, output: u64) -> (n: usize)
    ensures
        n == shown_on(workspaces@, output).len(),
{
    let mut n: usize = 0;
    let mut i: usize = 0;
    assert(workspaces@.take(0) =~= Seq::empty());
    while i < workspaces.len()
        invariant
            n <= i <= workspaces.len(),
            n == shown_on(workspaces@.take(i as int), output).len(),
        decreases workspaces.len() - i,
    {
        assert(workspaces@.take(i + 1).drop_last() =~= workspaces@.take(i as int));
        if has_number(&workspaces[i].outputs, output) {
            n = n + 1;
        }
        i = i + 1;
    }
    assert(workspaces@.take(workspaces@.len() as int) =~= workspaces@);
    n
}

/// The shape of previews on an output: its shape without the crop, or 16 to 9
/// where that is unknown or nothing is left.
pub open spec fn aspect_of(o: Option<Output>, clips: Strips) -> F32 {
    let usual = F32::of_int(16).quotient(F32::of_int(9));
    match o {
        Some(o) => {
            let w = F32::of_int(o.width as int).sum(
                F32::of_int(clips.left.wrapping_add(clips.right) as int).negated(),
            );
            let h = F32::of_int(o.height as int).sum(
                F32::of_int(clips.top.wrapping_add(clips.bottom) as int).negated(),
            );
            if F32::of_int(0).below(w) && F32::of_int(0).below(h) {
                w.quotient(h)
            } else {
                usual
            }
        },
        None => usual,
    }
}

/// Width and height of a bar on an output. A bar that fills its edge stretches;
/// any other is as long as its items, with the media block where it is shown.
pub open spec fn bar_size(
    config: Config,
    outputs: Seq<Output>,
    reserved: Seq<Reserved>,
    workspaces: Seq<Workspace>,
    media: bool,
    output: u64,
) -> SurfaceSize {
    if config.fill {
        config.edge.stretched(config.size)
    } else {
        let aspect = aspect_of(
            output_at(outputs, output),
            clips_on(config.clip, outputs, reserved, output),
        );
        let items = view::length(
            config.size,
            config.edge,
            shown_on(workspaces, output).len(),
            aspect,
        ) as u32;
        let len = if config.media_enabled && media {
            items.wrapping_add(view::media_length(config.size, config.edge) as u32).wrapping_add(8)
        } else {
            items
        };
        if config.edge.vertical() {
            Some((Some(config.size), Some(len)))
        } else {
            Some((Some(len), Some(config.size)))
        }
    }
}

/// Width and height of a bar on an output.
pub fn surface_size(
    config: &Config,
    outputs: &Vec<Output>,
    reserved: &Vec<Reserved>,
    workspaces: &Vec<Workspace>,
    media: bool,
    output: u64,
) -> (size: SurfaceSize)
    ensures
        size == bar_size(*config, outputs@, reserved@, workspaces@, media, output),
{
    if config.fill {
        return config.edge.layer_size(config.size);
    }
    let usual: F32 = F32::from_u64(16).over(&F32::from_u64(9));
    let aspect: F32 = match find_output(outputs, output) {
        Some(i) => {
            let clips: Strips = edge_clips(config.clip, outputs, reserved, output);
            let across: F32 = F32::from_u64(clips.left.wrapping_add(clips.right) as u64);
            let along: F32 = F32::from_u64(clips.top.wrapping_add(clips.bottom) as u64);
            let w: F32 = F32::from_i32(outputs[i].width).minus(&across);
            let h: F32 = F32::from_i32(outputs[i].height).minus(&along);
            let zero: F32 = F32::from_u64(0);
            if zero.less(&w) && zero.less(&h) {
                w.over(&h)
            } else {
                usual
            }
        },
        None => usual,
    };
    let count: usize = workspaces_on(workspaces, output);
    let items: u32 = view::bar_length(config.size, config.edge, count, aspect);
    let len: u32 = if config.media_enabled && media {
        items.wrapping_add(view::media_block_length(config.size, config.edge)).wrapping_add(8)
    } else {
        items
    };
    if config.edge.is_vertical() {
        Some((Some(config.size), Some(len)))
    } else {
        Some((Some(len), Some(config.size)))
    }
}

/// A length or coordinate of a screen, far within what is represented exactly.
pub open spec fn on_screens(n: int) -> bool {
    -0x20_0000 <= n <= 0x20_0000
}

/// A rectangle at whole coordinates.
pub open spec fn whole_rectangle(x: int, y: int, width: int, height: int) -> Rectangle {
    Rectangle {
        x: F32::of_int(x),
        y: F32::of_int(y),
        width: F32::of_int(width),
        height: F32::of_int(height),
    }
}

/// The larger of a crop and the length that a strip asks for.
pub open spec fn at_least(c: u32, n: int) -> u32 {
    if n > c {
        n as u32
    } else {
        c
    }
}

/// Whole lengths round and truncate to themselves.
proof fn lemma_whole_length(n: int)
    requires
        -exact_limit() <= n <= exact_limit(),
    ensures
        F32::of_int(n).rounded().truncated(0, u32::MAX as int) == if n < 0 {
            0
        } else {
            n
        },
{
    whole_rounding(n);
    whole_numbers_are_exact(n);
    if n >= 0 {
        whole_truncation(n, u32::MAX as int);
    }
}

/// Whether the middle of an interval lies before the middle of a length.
proof fn lemma_middle(x: int, n: int, length: int)
    requires
        on_screens(x),
        on_screens(n),
        on_screens(length),
    ensures
        F32::of_int(x).sum(half(F32::of_int(n))).below(half(F32::of_int(length))) == (2 * x + n
            < length),
{
    middles_are_exact(x, n);
    middles_are_exact(0, length);
    let a = F32::of_int(x).sum(half(F32::of_int(n)));
    let b = half(F32::of_int(length));
    below_is_order_of_values(a, b);
    let o = one(24);
    vstd::arithmetic::power2::lemma_pow2_pos(149);
    assert(((2 * x + n) * o < length * o) == (2 * x + n < length)) by (nonlinear_arith)
        requires
            o > 0,
    ;
}

/// A strip is cropped off as a whole, up to its far end, at the edge that it lies
/// at, and nothing is cropped at the other three. A strip at least as wide as high
/// lies at the top if its middle is above the middle of the output, and then the
/// crop reaches down to its lower end; else at the bottom, and the crop reaches up
/// to its upper end. A strip higher than wide lies likewise at the left, up to its
/// right end, or at the right, from its left end on.
pub proof fn strips_are_cropped_to_their_end(
    c: Strips,
    x: int,
    y: int,
    width: int,
    height: int,
    w: int,
    h: int,
)
    requires
        on_screens(x),
        on_screens(y),
        on_screens(width),
        on_screens(height),
        on_screens(w),
        on_screens(h),
    ensures
        ({
            let n = widened(
                c,
                whole_rectangle(x, y, width, height),
                F32::of_int(w),
                F32::of_int(h),
            );
            let level = width >= height;
            let upper = 2 * y + height < h;
            let left = 2 * x + width < w;
            &&& n.top == if level && upper {
                at_least(c.top, y + height)
            } else {
                c.top
            }
            &&& n.bottom == if level && !upper {
                at_least(c.bottom, h - y)
            } else {
                c.bottom
            }
            &&& n.left == if !level && left {
                at_least(c.left, x + width)
            } else {
                c.left
            }
            &&& n.right == if !level && !left {
                at_least(c.right, w - x)
            } else {
                c.right
            }
        }),
{
    whole_order(height, width);
    lemma_middle(y, height, h);
    lemma_middle(x, width, w);
    whole_sums_are_exact(y, height);
    whole_sums_are_exact(x, width);
    whole_differences_are_exact(h, y);
    whole_differences_are_exact(w, x);
    lemma_whole_length(y + height);
    lemma_whole_length(x + width);
    lemma_whole_length(h - y);
    lemma_whole_length(w - x);
}

/// The crop takes in what it is given and nothing less than before: it is at
/// least the crop that the strip alone asks for, at every edge, and no more than
/// the larger of the two.
pub proof fn strips_add_to_the_crop(c: Strips, r: Rectangle, w: F32, h: F32)
    ensures
        ({
            let n = widened(c, r, w, h);
            let alone = widened(Strips { top: 0, bottom: 0, left: 0, right: 0 }, r, w, h);
            &&& n.top == at_least(c.top, alone.top as int)
            &&& n.bottom == at_least(c.bottom, alone.bottom as int)
            &&& n.left == at_least(c.left, alone.left as int)
            &&& n.right == at_least(c.right, alone.right as int)
        }),
{
    lemma_u32_range(r.y.sum(r.height).rounded());
    lemma_u32_range(h.sum(r.y.negated()).rounded());
    lemma_u32_range(r.x.sum(r.width).rounded());
    lemma_u32_range(w.sum(r.x.negated()).rounded());
}

/// A surface of another output, one that reserves nothing, and, while only the
/// bar's own strip is to be cropped, one of another program leave the crop as it
/// is. Every other one widens it by its rectangle.
pub proof fn only_reserved_strips_are_cropped(
    reserved: Seq<Reserved>,
    r: Reserved,
    clip: Clip,
    output: u64,
    w: F32,
    h: F32,
)
    requires
        clip is OwnBar || clip is AllBars,
    ensures
        ({
            let before = crop_of(reserved, clip, output, w, h);
            let after = crop_of(reserved.push(r), clip, output, w, h);
            let ours = r.namespace@ == "workspaces-bar"@;
            &&& r.output != output || r.exclusive == 0 || (clip is OwnBar && !ours) ==> after
                == before
            &&& r.output == output && r.exclusive > 0 && (clip is AllBars || ours) ==> after
                == widened(before, r.rect, w, h)
        }),
        crop_of(Seq::empty(), clip, output, w, h) == (Strips {
            top: 0,
            bottom: 0,
            left: 0,
            right: 0,
        }),
{
    assert(reserved.push(r).drop_last() =~= reserved);
}

/// Nothing is cropped where nothing is to be, nor on an output that is not there;
/// and the strips of one output do not show on another.
pub proof fn crops_stay_on_their_output(
    clip: Clip,
    outputs: Seq<Output>,
    reserved: Seq<Reserved>,
    output: u64,
)
    ensures
        ({
            let nothing = Strips { top: 0, bottom: 0, left: 0, right: 0 };
            &&& clips_on(Clip::Nothing, outputs, reserved, output) == nothing
            &&& (forall|i: int|
                0 <= i < outputs.len() ==> (#[trigger] outputs[i]).handle != output)
                ==> clips_on(clip, outputs, reserved, output) == nothing
            &&& (forall|i: int|
                0 <= i < reserved.len() ==> (#[trigger] reserved[i]).output != output
                    || reserved[i].exclusive == 0) ==> clips_on(clip, outputs, reserved, output)
                == nothing
        }),
{
    if forall|i: int| 0 <= i < outputs.len() ==> (#[trigger] outputs[i]).handle != output {
        lemma_no_output(outputs, output);
    }
    if forall|i: int|
        0 <= i < reserved.len() ==> (#[trigger] reserved[i]).output != output
            || reserved[i].exclusive == 0 {
        if let Some(o) = output_at(outputs, output) {
            lemma_no_strips(
                reserved,
                clip,
                output,
                F32::of_int(o.width as int),
                F32::of_int(o.height as int),
            );
        }
    }
}

proof fn lemma_no_output(outputs: Seq<Output>, output: u64)
    requires
        forall|i: int| 0 <= i < outputs.len() ==> (#[trigger] outputs[i]).handle != output,
    ensures
        output_at(outputs, output) is None,
    decreases outputs.len(),
{
    if outputs.len() > 0 {
        assert forall|i: int| 0 <= i < outputs.skip(1).len() implies (#[trigger] outputs.skip(
            1,
        )[i]).handle != output by {
            assert(outputs[i + 1].handle != output);
        }
        assert(outputs[0].handle != output);
        lemma_no_output(outputs.skip(1), output);
    }
}

proof fn lemma_no_strips(reserved: Seq<Reserved>, clip: Clip, output: u64, w: F32, h: F32)
    requires
        forall|i: int|
            0 <= i < reserved.len() ==> (#[trigger] reserved[i]).output != output
                || reserved[i].exclusive == 0,
    ensures
        crop_of(reserved, clip, output, w, h) == (Strips { top: 0, bottom: 0, left: 0, right: 0 }),
    decreases reserved.len(),
{
    if reserved.len() > 0 {
        lemma_no_strips(reserved.drop_last(), clip, output, w, h);
        assert(reserved[reserved.len() - 1].output != output || reserved[reserved.len()
            - 1].exclusive == 0);
    }
}

/// The margin at an edge.
pub open spec fn margin_at(m: Margin, edge: Edge) -> i32 {
    match edge {
        Edge::Top => m.0,
        Edge::Right => m.1,
        Edge::Bottom => m.2,
        Edge::Left => m.3,
    }
}

/// A hidden bar is moved over its own edge alone, until four pixels are left of
/// it; one that is no thicker stays where it is.
pub proof fn bars_hide_over_their_edge(edge: Edge, other: Edge, size: u32)
    requires
        size <= i32::MAX,
    ensures
        size >= 4 ==> size + margin_at(hiding_margin(edge, size), edge) == 4,
        size <= 4 ==> margin_at(hiding_margin(edge, size), edge) == 0,
        other != edge ==> margin_at(hiding_margin(edge, size), other) == 0,
{
}

/// Previews have the shape of what is left of the output: cropping strips off
/// gives the shape of an output that is that much smaller. Without a crop it is
/// the output's own, width over height.
pub proof fn previews_have_the_shape_of_the_rest(o: Output, rest: Output, clips: Strips)
    requires
        on_screens(o.width as int),
        on_screens(o.height as int),
        clips.left + clips.right < o.width,
        clips.top + clips.bottom < o.height,
        rest.width == o.width - clips.left - clips.right,
        rest.height == o.height - clips.top - clips.bottom,
    ensures
        ({
            let nothing = Strips { top: 0, bottom: 0, left: 0, right: 0 };
            let aspect = aspect_of(Some(o), clips);
            &&& aspect == aspect_of(Some(rest), nothing)
            &&& near(aspect.size() * rest.height as int, rest.width * one(24), 1)
        }),
{
    let across = clips.left + clips.right;
    let along = clips.top + clips.bottom;
    whole_differences_are_exact(o.width as int, across);
    whole_differences_are_exact(o.height as int, along);
    whole_differences_are_exact(rest.width as int, 0);
    whole_differences_are_exact(rest.height as int, 0);
    whole_order(0, rest.width as int);
    whole_order(0, rest.height as int);
    whole_numbers_are_moderate(rest.width as int);
    whole_numbers_are_moderate(rest.height as int);
    whole_numbers_are_exact(rest.width as int);
    whole_numbers_are_exact(rest.height as int);
    moderate_quotients_are_near(
        F32::of_int(rest.width as int),
        F32::of_int(rest.height as int),
    );
    lemma_ratio(aspect_of(Some(o), clips).size() as int, rest.width as int, rest.height as int);
}

proof fn lemma_ratio(q: int, w: int, h: int)
    requires
        near(q * (h * one(24)), (w * one(24)) * one(24), 1),
    ensures
        near(q * h, w * one(24), 1),
{
    vstd::arithmetic::power2::lemma_pow2_pos(149);
    let o: int = one(24) as int;
    assert(q * (h * o) == (q * h) * o) by (nonlinear_arith);
    lemma_near_scaled(q * h, w * o, 1, o);
}

/// Where nothing is left of an output, or there is none, previews are sixteen to
/// nine.
pub proof fn previews_are_wide_without_an_output(o: Output, clips: Strips)
    requires
        on_screens(o.width as int),
        on_screens(o.height as int),
        clips.left + clips.right <= 0x20_0000,
        clips.top + clips.bottom <= 0x20_0000,
        clips.left + clips.right >= o.width || clips.top + clips.bottom >= o.height,
    ensures
        ({
            let aspect = aspect_of(Some(o), clips);
            &&& aspect == aspect_of(None, clips)
            &&& near(aspect.size() as int * 9, 16 * one(24) as int, 1)
        }),
{
    whole_differences_are_exact(o.width as int, clips.left + clips.right);
    whole_differences_are_exact(o.height as int, clips.top + clips.bottom);
    whole_order(0, o.width - (clips.left + clips.right));
    whole_order(0, o.height - (clips.top + clips.bottom));
    whole_numbers_are_moderate(16);
    whole_numbers_are_moderate(9);
    whole_numbers_are_exact(16);
    whole_numbers_are_exact(9);
    moderate_quotients_are_near(F32::of_int(16), F32::of_int(9));
    lemma_ratio(aspect_of(None, clips).size() as int, 16, 9);
}

/// The extent of a surface across an edge, and along it.
pub open spec fn across_edge(size: (Option<u32>, Option<u32>), edge: Edge) -> Option<u32> {
    match edge {
        Edge::Top | Edge::Bottom => size.1,
        Edge::Left | Edge::Right => size.0,
    }
}

pub open spec fn along_edge(size: (Option<u32>, Option<u32>), edge: Edge) -> Option<u32> {
    match edge {
        Edge::Top | Edge::Bottom => size.0,
        Edge::Left | Edge::Right => size.1,
    }
}

/// A bar is as thick as configured, at whatever edge. One that fills its edge has
/// no length of its own. Any other has the length of the workspaces of its output;
/// a player that is shown makes it longer by the media block and a gap of eight,
/// and one that is not shown does not.
pub proof fn bars_are_as_thick_as_configured(
    config: Config,
    outputs: Seq<Output>,
    reserved: Seq<Reserved>,
    workspaces: Seq<Workspace>,
    media: bool,
    output: u64,
)
    ensures
        ({
            let size = bar_size(config, outputs, reserved, workspaces, media, output);
            let still = bar_size(config, outputs, reserved, workspaces, false, output);
            &&& size is Some && still is Some
            &&& across_edge(size->0, config.edge) == Some(config.size)
            &&& along_edge(size->0, config.edge) is None == config.fill
            &&& !config.media_enabled ==> size == still
            &&& !config.fill && config.media_enabled && media && config.size <= 0xff_0000 ==> {
                let plain = along_edge(still->0, config.edge)->0;
                let block = view::larger(
                    config.size - if config.edge is Left || config.edge is Right {
                        24int
                    } else {
                        48
                    },
                    32,
                ) + if config.edge is Left || config.edge is Right {
                    80int
                } else {
                    8
                };
                plain + block + 8 <= u32::MAX ==> along_edge(size->0, config.edge) == Some(
                    (plain + block + 8) as u32,
                )
            }
        }),
{
    if config.size <= 0xff_0000 {
        view::media_block_length_is_exact(config.size, config.edge);
    }
}

/// A workspace that is not on an output does not change the bar there.
pub proof fn other_workspaces_take_no_room(
    config: Config,
    outputs: Seq<Output>,
    reserved: Seq<Reserved>,
    workspaces: Seq<Workspace>,
    w: Workspace,
    media: bool,
    output: u64,
)
    ensures
        shown_on(workspaces.push(w), output).len() == shown_on(workspaces, output).len() + if w.on(
            output,
        ) {
            1int
        } else {
            0
        },
        !w.on(output) ==> bar_size(
            config,
            outputs,
            reserved,
            workspaces.push(w),
            media,
            output,
        ) == bar_size(config, outputs, reserved, workspaces, media, output),
        shown_on(Seq::empty(), output).len() == 0,
{
    assert(workspaces.push(w).drop_last() =~= workspaces);
}

/// An output is found by its handle, the first of several.
pub proof fn outputs_are_found_by_handle(outputs: Seq<Output>, i: int)
    requires
        0 <= i < outputs.len(),
        forall|k: int| 0 <= k < i ==> (#[trigger] outputs[k]).handle != outputs[i].handle,
    ensures
        output_at(outputs, outputs[i].handle) == Some(outputs[i]),
    decreases outputs.len(),
{
    if i > 0 {
        let rest = outputs.skip(1);
        assert(outputs[0].handle != outputs[i].handle);
        assert(rest[i - 1] == outputs[i]);
        assert forall|k: int| 0 <= k < i - 1 implies (#[trigger] rest[k]).handle
            != rest[i - 1].handle by {
            assert(rest[k] == outputs[k + 1]);
        }
        outputs_are_found_by_handle(rest, i - 1);
    }
}

/// Without media a bar that does not fill its edge is as long as the items of its
/// output are, in the shape that what is left of the output has.
pub proof fn bars_are_as_long_as_their_items(
    config: Config,
    outputs: Seq<Output>,
    reserved: Seq<Reserved>,
    workspaces: Seq<Workspace>,
    output: u64,
    preview: int,
)
    requires
        !config.fill,
        config.size <= 0xff_0000,
        preview >= 0,
        ({
            let aspect = aspect_of(
                output_at(outputs, output),
                clips_on(config.clip, outputs, reserved, output),
            );
            let t = view::thickness(config.size, config.edge);
            &&& config.edge is Left || config.edge is Right ==> t.quotient(aspect)
                == F32::of_int(preview)
            &&& config.edge is Top || config.edge is Bottom ==> t.product(aspect)
                == F32::of_int(preview)
        }),
        view::larger(shown_on(workspaces, output).len() as int, 1) * (preview + 40) + 8
            <= exact_limit(),
    ensures
        ({
            let size = bar_size(config, outputs, reserved, workspaces, false, output);
            let n = view::larger(shown_on(workspaces, output).len() as int, 1);
            let item = preview + if config.edge is Left || config.edge is Right {
                32int
            } else {
                8
            };
            size is Some && along_edge(size->0, config.edge) == Some(
                (n * item + (n - 1) * 8 + 16) as u32,
            )
        }),
{
    let aspect = aspect_of(
        output_at(outputs, output),
        clips_on(config.clip, outputs, reserved, output),
    );
    view::bars_hold_their_items(
        config.size,
        config.edge,
        shown_on(workspaces, output).len(),
        aspect,
        preview,
    );
}

} // verus!
