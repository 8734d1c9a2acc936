//! One capture session: when the next frame is asked for, and which frames are
//! shown.

use crate::backend::pixels::{channel, crop, crops_all, is_crop, Strips};
use crate::backend::strips::{
    bounded, changes_beside_the_bar_are_seen, clip_for, clip_of, comparing_is_fair, gap,
    small_unchanged, strip_of, unchanged, BarFilter, CaptureSource, Group, Rect,
};
use vstd::prelude::*;

verus! {

/// Least delay between capture requests of one workspace, in milliseconds.
pub const CAPTURE_INTERVAL: u64 = 100;

/// Longest delay while a workspace is idle, in milliseconds.
pub const MAX_CAPTURE_INTERVAL: u64 = 8000;

/// Width of previews while the bar has not reported its size.
pub const DEFAULT_PREVIEW_PX: u32 = 512;

/// What the compositor can capture into.
#[derive(Debug)]
pub struct Formats {
    pub buffer_size: (u32, u32),
    /// Pixel formats for shared memory.
    pub shm_formats: Vec<u32>,
    /// The device that GPU buffers are to be allocated on.
    pub dmabuf_device: Option<u64>,
    /// Pixel formats for GPU buffers, each with its layout modifiers.
    pub dmabuf_formats: Vec<(u32, Vec<u64>)>,
}

/// A preview image.
#[derive(Clone, Debug)]
pub struct CaptureImage {
    pub width: u32,
    pub height: u32,
    pub pixels: Vec<u8>,
}

/// The state of a capture session.
pub struct ScreencopySession {
    pub formats: Option<Formats>,
    /// Buffers have been allocated.
    pub has_buffers: bool,
    /// Delay before the next request; grows while the workspace is idle.
    pub interval: u64,
    /// The last preview, for change detection.
    pub prev_small: Option<Vec<u8>>,
    /// A frame was requested and has not arrived.
    pub in_flight: bool,
    /// The timer that the next request waits for.
    pub timer_token: Option<u64>,
}

/// Why a frame was not captured.
#[derive(Clone, Copy, Debug, PartialEq, Eq, Structural)]
pub enum FailureReason {
    BufferConstraints,
    Stopped,
    Unknown,
}

/// What follows a failed capture.
#[derive(Clone, Copy, Debug, PartialEq, Eq, Structural)]
pub enum Recovery {
    /// Allocate new buffers, then ask for a frame.
    Reallocate,
    /// Ask for a frame with the buffers at hand.
    Retry,
    /// Nothing to ask with.
    Wait,
    /// End the session.
    Stop,
}

/// The delay that follows `interval` after an idle frame.
pub open spec fn backed_off(interval: u64) -> u64 {
    if 2 * interval < MAX_CAPTURE_INTERVAL {
        (2 * interval) as u64
    } else {
        MAX_CAPTURE_INTERVAL
    }
}

/// Width of previews.
pub open spec fn target_px(filter: Option<BarFilter>) -> u32 {
    match filter {
        Some(f) => f.preview_px,
        None => DEFAULT_PREVIEW_PX,
    }
}

/// Width of previews: as the bar asks for, else the default.
pub fn preview_target(filter: &Option<BarFilter>) -> (px: u32)
    ensures
        px == target_px(*filter),
{
    match filter {
        Some(f) => f.preview_px,
        None => DEFAULT_PREVIEW_PX,
    }
}

/// The image that is kept and shown of a downscaled frame: the frame without
/// the strips that are cropped.
pub open spec fn shown(
    clip: Option<(Strips, bool)>,
    w: u32,
    h: u32,
    small: Seq<u8>,
    new_w: u32,
    new_h: u32,
    kept: Seq<u8>,
) -> bool {
    match clip {
        Some((edges, _)) => is_crop(w, h, small, edges, new_w, new_h, kept),
        None => new_w == w && new_h == h && kept == small,
    }
}

/// The width of a frame after cropping.
pub open spec fn shown_width(clip: Option<(Strips, bool)>, w: u32, h: u32) -> u32 {
    match clip {
        Some((edges, _)) => if crops_all(w, h, edges) {
            w
        } else {
            (w - edges.left - edges.right) as u32
        },
        None => w,
    }
}

/// The height of a frame after cropping.
pub open spec fn shown_height(clip: Option<(Strips, bool)>, w: u32, h: u32) -> u32 {
    match clip {
        Some((edges, _)) => if crops_all(w, h, edges) {
            h
        } else {
            (h - edges.top - edges.bottom) as u32
        },
        None => h,
    }
}

/// The crop takes in the bar itself.
pub open spec fn bar_cropped(clip: Option<(Strips, bool)>) -> bool {
    clip matches Some((_, own)) && own
}

impl ScreencopySession {
    /// The delay is between the shortest and the longest.
    pub open spec fn valid(self) -> bool {
        CAPTURE_INTERVAL <= self.interval <= MAX_CAPTURE_INTERVAL
    }

    /// A session that has asked for nothing yet.
    pub open spec fn fresh() -> ScreencopySession {
        ScreencopySession {
            formats: None,
            has_buffers: false,
            interval: CAPTURE_INTERVAL,
            prev_small: None,
            in_flight: false,
            timer_token: None,
        }
    }

    /// The timer that is given up when the delay is brought back.
    pub open spec fn given_up_timer(self) -> Option<u64> {
        if self.in_flight {
            None
        } else {
            self.timer_token
        }
    }

    /// The session after the delay has been brought back.
    pub open spec fn hurried(self) -> ScreencopySession {
        if self.given_up_timer() is Some {
            ScreencopySession {
                interval: CAPTURE_INTERVAL,
                timer_token: None,
                in_flight: self.has_buffers,
                ..self
            }
        } else {
            ScreencopySession { interval: CAPTURE_INTERVAL, ..self }
        }
    }

    /// A request for a frame has gone out, if there are buffers to ask with.
    pub open spec fn asked(self, before: ScreencopySession) -> bool {
        self == (ScreencopySession { in_flight: before.in_flight || before.has_buffers, ..before })
    }

    /// A frame `small` of `size` pixels was taken in: the part of it that is
    /// shown is kept, and handed out as `image` unless it is the bar's own
    /// repaint. The delay doubles in that case, and is the shortest in any
    /// other.
    pub open spec fn took(
        self,
        before: ScreencopySession,
        filter: Option<BarFilter>,
        groups: Seq<Group>,
        source: CaptureSource,
        size: (u32, u32),
        small: Seq<u8>,
        image: Option<CaptureImage>,
    ) -> bool {
        let (w, h) = size;
        let clip = clip_of(filter, groups, source, size);
        let new_w = shown_width(clip, w, h);
        let new_h = shown_height(clip, w, h);
        let kept = self.prev_small->0@;
        let skip = before.prev_small is Some && unchanged(
            strip_of(filter, groups, source, (new_w, new_h)),
            (new_w, new_h),
            before.prev_small->0@,
            kept,
            bar_cropped(clip),
        );
        &&& self.prev_small is Some
        &&& shown(clip, w, h, small, new_w, new_h, kept)
        &&& image is None == skip
        &&& image matches Some(i) ==> i.width == new_w && i.height == new_h && i.pixels@ == kept
        &&& self == (ScreencopySession {
            prev_small: self.prev_small,
            interval: if skip {
                backed_off(before.interval)
            } else {
                CAPTURE_INTERVAL
            },
            ..before
        })
    }

    pub fn new() -> (s: ScreencopySession)
        ensures
            s == ScreencopySession::fresh(),
            s.valid(),
    {
        ScreencopySession {
            formats: None,
            has_buffers: false,
            interval: CAPTURE_INTERVAL,
            prev_small: None,
            in_flight: false,
            timer_token: None,
        }
    }

    /// Ask for a frame; true if there is a buffer to ask with.
    pub fn attach_buffer_and_commit(&mut self) -> (ask: bool)
        ensures
            ask == old(self).has_buffers,
            final(self).asked(*old(self)),
    {
        if !self.has_buffers {
            return false;
        }
        self.in_flight = true;
        true
    }

    /// The compositor has said what it can capture into; true if buffers are
    /// to be allocated and a frame asked for.
    pub fn init_done(&mut self, formats: Formats) -> (allocate: bool)
        ensures
            allocate == !old(self).has_buffers,
            *final(self) == (ScreencopySession {
                formats: Some(formats),
                has_buffers: true,
                in_flight: old(self).in_flight || allocate,
                ..*old(self)
            }),
    {
        self.formats = Some(formats);
        if self.has_buffers {
            return false;
        }
        self.has_buffers = true;
        self.attach_buffer_and_commit()
    }

    /// A frame has arrived; true if it can be read.
    pub fn frame_arrived(&mut self) -> (readable: bool)
        ensures
            readable == old(self).has_buffers,
            *final(self) == (ScreencopySession { in_flight: false, ..*old(self) }),
    {
        self.in_flight = false;
        self.has_buffers
    }

    /// Take in a downscaled frame of `w` by `h` pixels and hand out the preview
    /// to show. A frame that is alike the last one outside the bar's strip is
    /// the bar's own repaint: it is not shown, and the delay doubles. Any other
    /// frame is shown and brings the delay back to the shortest.
    pub fn frame_ready(
        &mut self,
        filter: &Option<BarFilter>,
        groups: &Vec<Group>,
        source: &CaptureSource,
        w: u32,
        h: u32,
        small: Vec<u8>,
    ) -> (image: Option<CaptureImage>)
        requires
            old(self).valid(),
            w <= i32::MAX,
            h <= i32::MAX,
            small@.len() == w * h * 4,
        ensures
            final(self).valid(),
            final(self).took(
                *old(self),
                *filter,
                groups@,
                *source,
                (w, h),
                small@,
                image,
            ),
    {
        let available: usize = small.len();
        proof {
            assert(h * w * 4 == w * h * 4) by (nonlinear_arith);
        }
        let clip: Option<(Strips, bool)> = clip_for(filter, groups, source, (w, h));
        let (sw, sh, kept) = match clip {
            Some((edges, _)) => {
                proof {
                    if !crops_all(w, h, edges) {
                        let r: int = h - edges.bottom;
                        assert(r * w * 4 <= h * w * 4) by (nonlinear_arith)
                            requires
                                0 <= r <= h,
                                w >= 0,
                        ;
                    }
                }
                crop(w, h, small, edges)
            },
            None => (w, h, small),
        };
        let own_clipped: bool = match clip {
            Some((_, own)) => own,
            None => false,
        };
        let skip: bool = match &self.prev_small {
            Some(prev) => small_unchanged(
                filter,
                groups,
                source,
                (sw, sh),
                prev.as_slice(),
                kept.as_slice(),
                own_clipped,
            ),
            None => false,
        };
        let image: Option<CaptureImage> = if skip {
            None
        } else {
            Some(CaptureImage { width: sw, height: sh, pixels: kept.clone() })
        };
        self.prev_small = Some(kept);
        self.interval = if skip {
            if 2 * self.interval < MAX_CAPTURE_INTERVAL {
                2 * self.interval
            } else {
                MAX_CAPTURE_INTERVAL
            }
        } else {
            CAPTURE_INTERVAL
        };
        image
    }

    /// The next request waits for the timer `token`.
    pub fn wait_for(&mut self, token: u64)
        ensures
            *final(self) == (ScreencopySession { timer_token: Some(token), ..*old(self) }),
    {
        self.timer_token = Some(token);
    }

    /// The timer has run out; true if a frame is to be asked for.
    pub fn timer_fired(&mut self) -> (ask: bool)
        ensures
            ask == old(self).has_buffers,
            final(self).asked(ScreencopySession { timer_token: None, ..*old(self) }),
    {
        self.timer_token = None;
        self.attach_buffer_and_commit()
    }

    /// A capture has failed.
    pub fn failed(&mut self, reason: FailureReason) -> (next: Recovery)
        ensures
            next == (if reason != FailureReason::BufferConstraints {
                Recovery::Stop
            } else if old(self).formats is Some {
                Recovery::Reallocate
            } else if old(self).has_buffers {
                Recovery::Retry
            } else {
                Recovery::Wait
            }),
            *final(self) == (ScreencopySession {
                has_buffers: old(self).has_buffers || next is Reallocate,
                in_flight: old(self).in_flight || next is Reallocate || next is Retry,
                ..*old(self)
            }),
    {
        match reason {
            FailureReason::BufferConstraints => {
                let reallocate: bool = self.formats.is_some();
                if reallocate {
                    self.has_buffers = true;
                }
                let ask: bool = self.attach_buffer_and_commit();
                if reallocate {
                    Recovery::Reallocate
                } else if ask {
                    Recovery::Retry
                } else {
                    Recovery::Wait
                }
            },
            _ => Recovery::Stop,
        }
    }

    /// Bring the delay back to the shortest. A request that waits for its timer
    /// goes out at once: the timer to remove is handed out.
    pub fn reset_interval(&mut self) -> (timer: Option<u64>)
        ensures
            final(self).valid(),
            timer == old(self).given_up_timer(),
            *final(self) == old(self).hurried(),
    {
        self.interval = CAPTURE_INTERVAL;
        if self.in_flight {
            return None;
        }
        match self.timer_token {
            Some(token) => {
                self.timer_token = None;
                let _ = self.attach_buffer_and_commit();
                Some(token)
            },
            None => None,
        }
    }
}

/// The delay after `n` idle frames in a row.
pub open spec fn idle_interval(interval: u64, n: nat) -> u64
    decreases n,
{
    if n == 0 {
        interval
    } else {
        backed_off(idle_interval(interval, (n - 1) as nat))
    }
}

/// A workspace that stays idle is captured less and less often: the delay never
/// shrinks, never exceeds the longest, and after seven idle frames is the
/// longest.
pub proof fn idle_sessions_back_off(interval: u64, n: nat)
    requires
        CAPTURE_INTERVAL <= interval <= MAX_CAPTURE_INTERVAL,
    ensures
        interval <= idle_interval(interval, n) <= MAX_CAPTURE_INTERVAL,
        idle_interval(interval, n) <= idle_interval(interval, n + 1),
        n >= 7 ==> idle_interval(interval, n) == MAX_CAPTURE_INTERVAL,
    decreases n,
{
    reveal_with_fuel(idle_interval, 9);
    if n > 0 {
        idle_sessions_back_off(interval, (n - 1) as nat);
    }
}

/// A frame that shows the same as the one before is not handed on, and the next
/// one is asked for later: repaints of the bar itself do not feed a loop of
/// captures and repaints.
pub proof fn repeated_frames_are_not_shown(
    before: ScreencopySession,
    after: ScreencopySession,
    filter: Option<BarFilter>,
    groups: Seq<Group>,
    source: CaptureSource,
    size: (u32, u32),
    small: Seq<u8>,
    image: Option<CaptureImage>,
)
    requires
        after.took(before, filter, groups, source, size, small, image),
        before.prev_small is Some,
        after.prev_small->0@ == before.prev_small->0@,
    ensures
        image is None,
        after.interval == backed_off(before.interval),
{
    let clip = clip_of(filter, groups, source, size);
    let shown = (shown_width(clip, size.0, size.1), shown_height(clip, size.0, size.1));
    comparing_is_fair(
        strip_of(filter, groups, source, shown),
        shown,
        before.prev_small->0@,
        after.prev_small->0@,
        bar_cropped(clip),
    );
}

/// A frame that differs from the one before is handed on as it is kept, and the
/// next one is asked for after the shortest delay. So is the first frame.
pub proof fn changed_frames_are_shown(
    before: ScreencopySession,
    after: ScreencopySession,
    filter: Option<BarFilter>,
    groups: Seq<Group>,
    source: CaptureSource,
    size: (u32, u32),
    small: Seq<u8>,
    image: Option<CaptureImage>,
)
    requires
        after.took(before, filter, groups, source, size, small, image),
        before.prev_small is None || before.prev_small->0@.len() != after.prev_small->0@.len(),
    ensures
        after.interval == 100,
        image matches Some(i) && i.pixels@ == after.prev_small->0@,
        after.in_flight == before.in_flight && after.has_buffers == before.has_buffers
            && after.timer_token == before.timer_token,
{
}

/// Without anything to crop a frame is kept and shown whole. A change of any pixel
/// beside the bar, by more than the noise, is then shown, however the bar itself
/// looks.
pub proof fn changes_beside_the_bar_are_shown(
    before: ScreencopySession,
    after: ScreencopySession,
    filter: Option<BarFilter>,
    groups: Seq<Group>,
    source: CaptureSource,
    size: (u32, u32),
    small: Seq<u8>,
    image: Option<CaptureImage>,
    r: Rect,
    x: int,
    y: int,
    c: int,
)
    requires
        after.took(before, filter, groups, source, size, small, image),
        before.prev_small is Some,
        clip_of(filter, groups, source, size) is None,
        strip_of(filter, groups, source, size) == Some(r),
        bounded(r),
        0 <= x < size.0,
        0 <= y < size.1,
        0 <= c < 4,
        x < r.x || x >= r.x + r.width || y < r.y || y >= r.y + r.height,
        gap(
            channel(before.prev_small->0@, size.0 as int, x, y, c),
            channel(small, size.0 as int, x, y, c),
        ) > 6,
    ensures
        after.prev_small->0@ == small,
        image matches Some(i) && i.width == size.0 && i.height == size.1 && i.pixels@ == small,
        after.interval == 100,
{
    changes_beside_the_bar_are_seen(r, size, before.prev_small->0@, small, x, y, c);
}

/// An idle frame doubles the delay, up to the longest of eight seconds.
pub proof fn delays_double(interval: u64)
    requires
        100 <= interval <= 8000,
    ensures
        interval <= 4000 ==> backed_off(interval) == 2 * interval,
        interval > 4000 ==> backed_off(interval) == 8000,
{
}

/// Hurrying a session brings its delay back to the shortest. One that waits for
/// its timer gives the timer up and asks at once if it can; one that has asked
/// already goes on waiting for the frame.
pub proof fn hurrying_asks_at_once(s: ScreencopySession, token: u64)
    ensures
        s.hurried().interval == 100,
        s.hurried().prev_small == s.prev_small && s.hurried().has_buffers == s.has_buffers
            && s.hurried().formats == s.formats,
        s.in_flight ==> s.given_up_timer() is None && s.hurried().in_flight
            && s.hurried().timer_token == s.timer_token,
        !s.in_flight && s.timer_token == Some(token) ==> s.given_up_timer() == Some(token)
            && s.hurried().timer_token is None && s.hurried().in_flight == s.has_buffers,
        !s.in_flight && s.timer_token is None ==> s.given_up_timer() is None
            && !s.hurried().in_flight,
{
}

/// Cropping takes as much off the shown size as off the frame, and never all of it.
pub proof fn shown_sizes_fit_the_crop(edges: Strips, own: bool, w: u32, h: u32)
    ensures
        ({
            let clip = Some((edges, own));
            let (sw, sh) = (shown_width(clip, w, h), shown_height(clip, w, h));
            &&& edges.left + edges.right < w && edges.top + edges.bottom < h ==> sw + edges.left
                + edges.right == w && sh + edges.top + edges.bottom == h
            &&& edges.left + edges.right >= w || edges.top + edges.bottom >= h ==> sw == w && sh
                == h
            &&& bar_cropped(clip) == own
            &&& !bar_cropped(None)
        }),
{
}

/// Previews are as wide as the bar asks for, and 512 pixels before it has.
pub proof fn previews_are_as_wide_as_asked(f: BarFilter)
    ensures
        target_px(Some(f)) == f.preview_px,
        target_px(None) == 512,
{
}

/// Of a frame that is cropped, what is kept and shown is the part between the strips,
/// pixel for pixel.
pub proof fn shown_frames_are_cropped(
    before: ScreencopySession,
    after: ScreencopySession,
    filter: Option<BarFilter>,
    groups: Seq<Group>,
    source: CaptureSource,
    size: (u32, u32),
    small: Seq<u8>,
    image: Option<CaptureImage>,
    edges: Strips,
    x: int,
    y: int,
    c: int,
)
    requires
        after.took(before, filter, groups, source, size, small, image),
        clip_of(filter, groups, source, size) matches Some((e, _)) && e == edges,
        edges.left + edges.right < size.0,
        edges.top + edges.bottom < size.1,
        image is Some,
        0 <= x < size.0 - edges.left - edges.right,
        0 <= y < size.1 - edges.top - edges.bottom,
        0 <= c < 4,
    ensures
        image->0.width == size.0 - edges.left - edges.right,
        image->0.height == size.1 - edges.top - edges.bottom,
        channel(image->0.pixels@, image->0.width as int, x, y, c) == channel(
            small,
            size.0 as int,
            x + edges.left,
            y + edges.top,
            c,
        ),
{
}

} // verus!
