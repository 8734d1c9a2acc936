//! Buffers that the compositor captures into: in shared memory, or on the GPU.

use crate::backend::session::Formats;
use crate::backend::strips::Rect;
use crate::text;
use vstd::prelude::*;

verus! {

/// Red, green, blue and alpha, one byte each in memory: the format `AB24`.
pub const ABGR8888: u32 = 0x3432_4241;

/// A buffer in shared memory.
#[derive(Clone, Copy, Debug, PartialEq, Eq, Structural)]
pub struct ShmLayout {
    /// Length of the file.
    pub bytes: u64,
    /// Length of the pool, as the protocol takes it.
    pub pool: i32,
    pub width: i32,
    pub height: i32,
    pub stride: i32,
}

/// What a captured frame goes into.
#[derive(Clone, Copy, Debug, PartialEq, Eq, Structural)]
pub enum BufferPlan {
    /// A GPU buffer on this device, with the layout modifiers at this place of
    /// the formats; shared memory if it cannot be had.
    Dmabuf { device: u64, format: usize },
    Shm,
}

/// The first entry for a format.
pub open spec fn entry_for(formats: Seq<(u32, Vec<u64>)>, format: u32, from: int) -> Option<int>
    decreases formats.len() - from,
{
    if from >= formats.len() {
        None
    } else if formats[from].0 == format {
        Some(from)
    } else {
        entry_for(formats, format, from + 1)
    }
}

/// The entry for the wanted format, if it has layout modifiers.
pub open spec fn usable_entry(formats: Seq<(u32, Vec<u64>)>) -> Option<int> {
    match entry_for(formats, ABGR8888, 0) {
        Some(i) => if formats[i].1@.len() > 0 {
            Some(i)
        } else {
            None
        },
        None => None,
    }
}

/// The place of the wanted format among those of the GPU, with the layout
/// modifiers to allocate with; `None` if GPU buffers are not usable.
pub fn create_dmabuf_buffer(formats: &Vec<(u32, Vec<u64>)>) -> (at: Option<usize>)
    ensures
        match at {
            Some(i) => usable_entry(formats@) == Some(i as int) && i < formats@.len(),
            None => usable_entry(formats@) is None,
        },
{
    let mut i: usize = 0;
    while i < formats.len()
        invariant
            i <= formats.len(),
            entry_for(formats@, ABGR8888, 0) == entry_for(formats@, ABGR8888, i as int),
        decreases formats.len() - i,
    {
        if formats[i].0 == ABGR8888 {
            return if formats[i].1.len() > 0 {
                Some(i)
            } else {
                None
            };
        }
        i = i + 1;
    }
    None
}

/// What a captured frame goes into: a GPU buffer where the compositor offers a
/// device and a usable format for it.
pub fn create_capture_buffer(formats: &Formats) -> (plan: BufferPlan)
    ensures
        plan == (match (formats.dmabuf_device, usable_entry(formats.dmabuf_formats@)) {
            (Some(device), Some(i)) => BufferPlan::Dmabuf { device, format: i as usize },
            _ => BufferPlan::Shm,
        }),
{
    match formats.dmabuf_device {
        Some(device) => match create_dmabuf_buffer(&formats.dmabuf_formats) {
            Some(i) => BufferPlan::Dmabuf { device, format: i },
            None => BufferPlan::Shm,
        },
        None => BufferPlan::Shm,
    }
}

/// The layout of a buffer in shared memory.
pub fn create_buffer(formats: &Formats) -> (layout: ShmLayout)
    requires
        formats.shm_formats@.contains(ABGR8888),
    ensures
        ({
            let (w, h) = formats.buffer_size;
            &&& layout.bytes == (w as u64).wrapping_mul(h as u64).wrapping_mul(4)
            &&& layout.pool == (w as i32).wrapping_mul(h as i32).wrapping_mul(4)
            &&& layout.width == w as i32
            &&& layout.height == h as i32
            &&& layout.stride == (w as i32).wrapping_mul(4)
        }),
{
    let (w, h) = formats.buffer_size;
    ShmLayout {
        bytes: (w as u64).wrapping_mul(h as u64).wrapping_mul(4),
        pool: (w as i32).wrapping_mul(h as i32).wrapping_mul(4),
        width: w as i32,
        height: h as i32,
        stride: (w as i32).wrapping_mul(4),
    }
}

/// A buffer holds just its pixels, four bytes each and row by row, where the
/// numbers of the protocol can tell its length.
pub proof fn layouts_fit(w: u32, h: u32)
    requires
        4 * (w * h) <= i32::MAX,
        4 * w <= i32::MAX,
        h <= i32::MAX,
    ensures
        (w as u64).wrapping_mul(h as u64).wrapping_mul(4) == 4 * (w * h),
        (w as i32).wrapping_mul(h as i32).wrapping_mul(4) == 4 * (w * h),
        (w as i32).wrapping_mul(4) * h == 4 * (w * h),
{
    let p: int = w * h;
    assert(p >= 0) by (nonlinear_arith)
        requires
            p == w * h,
    ;
    assert(4 * w * h == 4 * p) by (nonlinear_arith)
        requires
            p == w * h,
    ;
}

/// The whole of a buffer.
pub fn full_damage(size: (u32, u32)) -> (rect: Rect)
    ensures
        rect == (Rect { x: 0, y: 0, width: size.0 as i32, height: size.1 as i32 }),
{
    Rect { x: 0, y: 0, width: size.0 as i32, height: size.1 as i32 }
}

/// A device file is the render node of the wanted device.
pub open spec fn is_render_node(name: Seq<char>, device: Option<u64>, target: u64) -> bool {
    text::begins_with(name, "renderD"@) && device == Some(target)
}

/// Whether a device file is the render node of the wanted device. `device` is
/// what the file stands for, where that can be told.
pub fn render_node_matches(name: &str, device: Option<u64>, target: u64) -> (res: bool)
    ensures
        res == is_render_node(name@, device, target),
{
    text::starts_with(name, "renderD") && match device {
        Some(d) => d == target,
        None => false,
    }
}

/// The GPU context that scales frames down. A failed attempt to make one is
/// remembered, so that it is not made for every frame.
pub struct GpuContext {
    pub failed: bool,
    /// The device that it was made on.
    pub device: Option<u64>,
}

/// How to come by a GPU context.
#[derive(Clone, Copy, Debug, PartialEq, Eq, Structural)]
pub enum GpuPlan {
    /// There is none; scale down on the CPU.
    Unavailable,
    Reuse,
    Create,
}

/// What came of making a GPU context.
#[derive(Clone, Copy, Debug, PartialEq, Eq, Structural)]
pub enum GpuOutcome {
    /// The device has no usable render node.
    NoDevice,
    Failed,
    Created,
}

impl GpuContext {
    pub fn new() -> (c: GpuContext)
        ensures
            !c.failed,
            c.device is None,
    {
        GpuContext { failed: false, device: None }
    }

    /// How to come by a context on a device.
    pub fn gpu_downscaler(&self, device: u64) -> (plan: GpuPlan)
        ensures
            plan == if self.failed {
                GpuPlan::Unavailable
            } else if self.device == Some(device) {
                GpuPlan::Reuse
            } else {
                GpuPlan::Create
            },
    {
        if self.failed {
            return GpuPlan::Unavailable;
        }
        match self.device {
            Some(d) => if d == device {
                GpuPlan::Reuse
            } else {
                GpuPlan::Create
            },
            None => GpuPlan::Create,
        }
    }

    /// Making a context on a device has come to this; true if it can be used.
    pub fn made(&mut self, device: u64, outcome: GpuOutcome) -> (usable: bool)
        ensures
            usable == (outcome is Created),
            *final(self) == (match outcome {
                GpuOutcome::NoDevice => *old(self),
                GpuOutcome::Failed => GpuContext { failed: true, ..*old(self) },
                GpuOutcome::Created => GpuContext { device: Some(device), ..*old(self) },
            }),
    {
        match outcome {
            GpuOutcome::NoDevice => false,
            GpuOutcome::Failed => {
                self.failed = true;
                false
            },
            GpuOutcome::Created => {
                self.device = Some(device);
                true
            },
        }
    }
}

pub const EGL_WIDTH: i32 = 0x3057;

pub const EGL_HEIGHT: i32 = 0x3056;

pub const EGL_NONE: i32 = 0x3038;

pub const EGL_LINUX_DRM_FOURCC_EXT: i32 = 0x3271;

/// One plane of a GPU buffer.
#[derive(Clone, Copy, Debug, PartialEq, Eq, Structural)]
pub struct Plane {
    pub fd: i32,
    pub offset: u32,
    pub stride: u32,
}

/// The attribute names for a plane: file, offset, pitch, and the low and high
/// half of the modifier. The registry numbers them plane by plane.
pub open spec fn plane_names(plane: int) -> (i32, i32, i32, i32, i32) {
    (
        (0x3272 + 3 * plane) as i32,
        (0x3273 + 3 * plane) as i32,
        (0x3274 + 3 * plane) as i32,
        (0x3443 + 2 * plane) as i32,
        (0x3444 + 2 * plane) as i32,
    )
}

/// The low half of a modifier.
pub open spec fn low_half(modifier: u64) -> i32 {
    (modifier & 0xffff_ffff) as i32
}

/// The high half of a modifier.
pub open spec fn high_half(modifier: u64) -> i32 {
    (modifier >> 32) as i32
}

/// The attributes of the first planes.
pub open spec fn plane_attribs(planes: Seq<Plane>, modifier: u64) -> Seq<i32>
    decreases planes.len(),
{
    if planes.len() == 0 {
        Seq::empty()
    } else {
        let p = planes.last();
        let names = plane_names(planes.len() - 1);
        plane_attribs(planes.drop_last(), modifier) + seq![
            names.0,
            p.fd,
            names.1,
            p.offset as i32,
            names.2,
            p.stride as i32,
            names.3,
            low_half(modifier),
            names.4,
            high_half(modifier),
        ]
    }
}

/// The attributes that import a GPU buffer of one to three planes.
pub fn import_attribs(
    width: u32,
    height: u32,
    fourcc: u32,
    modifier: u64,
    planes: &Vec<Plane>,
) -> (attribs: Option<Vec<i32>>)
    ensures
        attribs is Some == (1 <= planes@.len() <= 3),
        attribs matches Some(list) ==> list@ == seq![
            EGL_WIDTH,
            width as i32,
            EGL_HEIGHT,
            height as i32,
            EGL_LINUX_DRM_FOURCC_EXT,
            fourcc as i32,
        ] + plane_attribs(planes@, modifier) + seq![EGL_NONE],
{
    if planes.len() == 0 || planes.len() > 3 {
        return None;
    }
    let low: i32 = (modifier & 0xffff_ffff) as i32;
    let high: i32 = (modifier >> 32) as i32;
    let mut list: Vec<i32> = vec![
        EGL_WIDTH,
        width as i32,
        EGL_HEIGHT,
        height as i32,
        EGL_LINUX_DRM_FOURCC_EXT,
        fourcc as i32,
    ];
    let ghost head = list@;
    let mut i: usize = 0;
    assert(planes@.take(0) =~= Seq::empty());
    assert(head + plane_attribs(planes@.take(0), modifier) =~= head);
    while i < planes.len()
        invariant
            i <= planes.len() <= 3,
            low == low_half(modifier),
            high == high_half(modifier),
            list@ == head + plane_attribs(planes@.take(i as int), modifier),
        decreases planes.len() - i,
    {
        let k: i32 = i as i32;
        let p: Plane = planes[i];
        let ghost so_far = list@;
        list.push(0x3272 + 3 * k);
        list.push(p.fd);
        list.push(0x3273 + 3 * k);
        list.push(p.offset as i32);
        list.push(0x3274 + 3 * k);
        list.push(p.stride as i32);
        list.push(0x3443 + 2 * k);
        list.push(low);
        list.push(0x3444 + 2 * k);
        list.push(high);
        proof {
            let done = planes@.take(i as int);
            let next = planes@.take(i + 1);
            assert(next.drop_last() =~= done);
            assert(next.last() == p);
            assert(list@ =~= head + plane_attribs(next, modifier));
        }
        i = i + 1;
    }
    assert(planes@.take(planes@.len() as int) =~= planes@);
    list.push(EGL_NONE);
    assert(list@ =~= head + plane_attribs(planes@, modifier) + seq![EGL_NONE]);
    assert(head =~= seq![
        EGL_WIDTH,
        width as i32,
        EGL_HEIGHT,
        height as i32,
        EGL_LINUX_DRM_FOURCC_EXT,
        fourcc as i32,
    ]);
    Some(list)
}

/// Whether the texture that frames are drawn into has to be made anew.
pub fn needs_new_dest(dest: Option<(u32, u32)>, size: (u32, u32)) -> (res: bool)
    ensures
        res == (dest != Some(size)),
{
    match dest {
        Some((w, h)) => w != size.0 || h != size.1,
        None => true,
    }
}

/// Bytes of a preview of this size.
pub fn readback_len(size: (u32, u32)) -> (len: u32)
    ensures
        len == size.0.wrapping_mul(size.1).wrapping_mul(4),
{
    size.0.wrapping_mul(size.1).wrapping_mul(4)
}

/// What came of opening a shared memory file under a name.
#[derive(Clone, Copy, Debug, PartialEq, Eq, Structural)]
pub enum ShmOpen {
    /// It was opened; its name was taken away again, or could not be.
    Opened { unlinked: bool },
    /// There is a file of that name.
    Exists,
    Failed,
}

/// What follows.
#[derive(Clone, Copy, Debug, PartialEq, Eq, Structural)]
pub enum MemfileStep {
    Ready,
    /// Try another name.
    TryAgain,
    GiveUp,
}

/// What follows an attempt to open a shared memory file.
pub fn create_memfile(opened: ShmOpen) -> (step: MemfileStep)
    ensures
        step == (match opened {
            ShmOpen::Opened { unlinked: true } => MemfileStep::Ready,
            ShmOpen::Exists => MemfileStep::TryAgain,
            _ => MemfileStep::GiveUp,
        }),
{
    match opened {
        ShmOpen::Opened { unlinked } => if unlinked {
            MemfileStep::Ready
        } else {
            MemfileStep::GiveUp
        },
        ShmOpen::Exists => MemfileStep::TryAgain,
        ShmOpen::Failed => MemfileStep::GiveUp,
    }
}

/// The name of a shared memory file, told apart by the time of day.
pub fn memfile_name(nanos: u32) -> (name: String)
    ensures
        name@ == "/cosmic-ext-workspaces-bar-shm-"@ + text::decimal(nanos as nat),
{
    text::concat("/cosmic-ext-workspaces-bar-shm-", &text::decimal_of(nanos as u64))
}

/// A GPU buffer is used only in the format whose bytes are red, green, blue and
/// alpha in this order, and only where the first entry for it has a layout.
pub proof fn usable_formats_have_layouts(formats: Seq<(u32, Vec<u64>)>)
    ensures
        usable_entry(formats) matches Some(i) ==> {
            &&& 0 <= i < formats.len()
            &&& has_layout(formats[i], 0x3432_4241)
            &&& forall|k: int| 0 <= k < i ==> format_of(#[trigger] formats[k]) != 0x3432_4241
        },
        usable_entry(formats) is None ==> forall|k: int|
            0 <= k < formats.len() && has_layout(#[trigger] formats[k], 0x3432_4241) ==> exists|
                j: int,
            |
                0 <= j < k && format_of(#[trigger] formats[j]) == 0x3432_4241,
{
    lemma_entry_for(formats, 0x3432_4241, 0);
}

/// The format of an entry.
pub open spec fn format_of(entry: (u32, Vec<u64>)) -> u32 {
    entry.0
}

/// The entry is for a format, with at least one layout.
pub open spec fn has_layout(entry: (u32, Vec<u64>), format: u32) -> bool {
    entry.0 == format && entry.1@.len() > 0
}

proof fn lemma_entry_for(formats: Seq<(u32, Vec<u64>)>, format: u32, from: int)
    requires
        0 <= from,
    ensures
        match entry_for(formats, format, from) {
            Some(i) => {
                &&& from <= i < formats.len()
                &&& format_of(formats[i]) == format
                &&& forall|k: int| from <= k < i ==> format_of(#[trigger] formats[k]) != format
            },
            None => forall|k: int|
                from <= k < formats.len() ==> format_of(#[trigger] formats[k]) != format,
        },
    decreases formats.len() - from,
{
    if from < formats.len() && formats[from].0 != format {
        lemma_entry_for(formats, format, from + 1);
    }
}

/// The attributes of a plane are in the list: five names with their values, the
/// file, where the plane starts and how long its rows are, and the two halves of
/// the modifier.
pub proof fn planes_are_described(planes: Seq<Plane>, modifier: u64, i: int)
    requires
        0 <= i < planes.len() <= 3,
    ensures
        ({
            let list = plane_attribs(planes, modifier);
            let at = 10 * i;
            &&& list.len() == 10 * planes.len()
            &&& list[at] == 0x3272 + 3 * i && list[at + 1] == planes[i].fd
            &&& list[at + 2] == 0x3273 + 3 * i && list[at + 3] == planes[i].offset as i32
            &&& list[at + 4] == 0x3274 + 3 * i && list[at + 5] == planes[i].stride as i32
            &&& list[at + 6] == 0x3443 + 2 * i && list[at + 7] == low_half(modifier)
            &&& list[at + 8] == 0x3444 + 2 * i && list[at + 9] == high_half(modifier)
        }),
    decreases planes.len(),
{
    let front = planes.drop_last();
    let before = plane_attribs(front, modifier);
    let list = plane_attribs(planes, modifier);
    lemma_attribs_length(front, modifier);
    if i < front.len() {
        planes_are_described(front, modifier, i);
        assert(front[i] == planes[i]);
        assert forall|k: int| 0 <= k < before.len() implies #[trigger] list[k] == before[k] by {}
    }
}

proof fn lemma_attribs_length(planes: Seq<Plane>, modifier: u64)
    ensures
        plane_attribs(planes, modifier).len() == 10 * planes.len(),
    decreases planes.len(),
{
    if planes.len() > 0 {
        lemma_attribs_length(planes.drop_last(), modifier);
    }
}

/// The two halves of a modifier make it up again.
pub proof fn halves_make_the_modifier(modifier: u64)
    ensures
        ({
            let low = low_half(modifier);
            let high = high_half(modifier);
            ((high as u32) as u64) * 0x1_0000_0000 + ((low as u32) as u64) == modifier
        }),
{
    assert(((((modifier >> 32) as i32) as u32) as u64) == modifier >> 32) by (bit_vector);
    assert(((((modifier & 0xffff_ffff) as i32) as u32) as u64) == modifier & 0xffff_ffff)
        by (bit_vector);
    assert((modifier >> 32) <= 0xffff_ffff && (modifier & 0xffff_ffff) <= 0xffff_ffff)
        by (bit_vector);
    assert((modifier >> 32) * 0x1_0000_0000 + (modifier & 0xffff_ffff) == modifier) by (bit_vector);
}

/// A buffer in shared memory is as large as its pixels need, four bytes each, and its
/// rows follow each other without a gap.
pub proof fn shared_buffers_hold_their_pixels(formats: Formats, layout: ShmLayout)
    requires
        call_ensures(create_buffer, (&formats,), layout),
        4 * (formats.buffer_size.0 * formats.buffer_size.1) <= i32::MAX,
        4 * formats.buffer_size.0 <= i32::MAX,
        formats.buffer_size.1 <= i32::MAX,
    ensures
        layout.width == formats.buffer_size.0,
        layout.height == formats.buffer_size.1,
        layout.bytes == 4 * (formats.buffer_size.0 * formats.buffer_size.1),
        layout.pool == layout.bytes,
        layout.stride == 4 * layout.width,
        layout.stride * layout.height == layout.bytes,
{
    layouts_fit(formats.buffer_size.0, formats.buffer_size.1);
}

/// Frames go into a GPU buffer only where the compositor names a device, and then on
/// that device and in a format of the list that has a layout.
pub proof fn gpu_buffers_need_a_device(formats: Formats, plan: BufferPlan)
    requires
        call_ensures(create_capture_buffer, (&formats,), plan),
        formats.dmabuf_formats@.len() <= usize::MAX,
    ensures
        formats.dmabuf_device is None ==> plan is Shm,
        plan matches BufferPlan::Dmabuf { device, format } ==> formats.dmabuf_device == Some(device)
            && format < formats.dmabuf_formats@.len() && has_layout(
            formats.dmabuf_formats@[format as int],
            0x3432_4241,
        ),
        formats.dmabuf_device is Some && formats.dmabuf_formats@.len() > 0 && has_layout(
            formats.dmabuf_formats@[0],
            0x3432_4241,
        ) ==> plan is Dmabuf,
{
    usable_formats_have_layouts(formats.dmabuf_formats@);
}

/// A context is made once per device and used again for it; after a failure none is
/// tried any more.
pub proof fn failed_contexts_are_not_tried_again(c: GpuContext, device: u64, plan: GpuPlan)
    requires
        call_ensures(GpuContext::gpu_downscaler, (&c, device), plan),
    ensures
        c.failed ==> plan is Unavailable,
        !c.failed && c.device == Some(device) ==> plan is Reuse,
        !c.failed && c.device != Some(device) ==> plan is Create,
{
}

/// A render node is told by its name and by its device.
pub proof fn render_nodes_are_found(rest: Seq<char>, target: u64, other: u64)
    requires
        other != target,
    ensures
        is_render_node("renderD"@ + rest, Some(target), target),
        !is_render_node("renderD"@ + rest, Some(other), target),
        !is_render_node("renderD"@ + rest, None, target),
{
    text::lemma_inside(Seq::empty(), "renderD"@, rest);
}

/// An import names the size and the format of the buffer, then its planes, and ends
/// with the mark of the end; buffers of no plane or of more than three are not
/// imported.
pub proof fn imports_describe_the_buffer(
    width: u32,
    height: u32,
    fourcc: u32,
    modifier: u64,
    planes: Vec<Plane>,
    attribs: Option<Vec<i32>>,
)
    requires
        call_ensures(import_attribs, (width, height, fourcc, modifier, &planes), attribs),
    ensures
        attribs is Some == (1 <= planes@.len() <= 3),
        attribs matches Some(list) ==> {
            &&& list@.len() == 7 + 10 * planes@.len()
            &&& list@[0] == 0x3057 && list@[1] == width as i32
            &&& list@[2] == 0x3056 && list@[3] == height as i32
            &&& list@[4] == 0x3271 && list@[5] == fourcc as i32
            &&& list@[6] == 0x3272 && list@[7] == planes@[0].fd
            &&& list@.last() == 0x3038
        },
{
    if attribs is Some {
        planes_are_described(planes@, modifier, 0);
    }
}

} // verus!
