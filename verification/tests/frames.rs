use cosmic_ext_workspaces_bar::backend::pixels::{
    crop, downscale, has_rows, preview_size, rows_similar, Strips,
};
use cosmic_ext_workspaces_bar::backend::session::{
    preview_target, FailureReason, Formats, Recovery, ScreencopySession, CAPTURE_INTERVAL,
    MAX_CAPTURE_INTERVAL,
};
use cosmic_ext_workspaces_bar::backend::strips::{
    bar_strip, clip_for, small_unchanged, BarFilter, CaptureSource, Group, Rect,
};
use cosmic_ext_workspaces_bar::config::Edge;

fn filter(edge: Edge, size: u32, clips: Strips) -> Option<BarFilter> {
    Some(BarFilter {
        edge,
        size,
        outputs: vec![(9, (1920, 1080))],
        paused: false,
        preview_px: 200,
        clips: vec![(9, clips)],
    })
}

fn no_clips() -> Strips {
    Strips { top: 0, bottom: 0, left: 0, right: 0 }
}

fn groups() -> Vec<Group> {
    vec![
        Group { workspaces: vec![1], outputs: vec![8] },
        Group { workspaces: vec![2, 3], outputs: vec![7, 9] },
    ]
}

fn formats() -> Formats {
    Formats {
        buffer_size: (4, 4),
        shm_formats: Vec::new(),
        dmabuf_device: None,
        dmabuf_formats: Vec::new(),
    }
}

fn native_downscale(w: u32, h: u32, src: &[u8], stride: usize, target: u32) -> (u32, u32, Vec<u8>) {
    let target = target.max(1).min(w.max(1));
    let scale = w as f32 / target as f32;
    let sw = target;
    let sh = ((h as f32 / scale).round() as u32).max(1);
    let mut out = Vec::new();
    for y in 0..sh {
        let sy = (((y as f32 + 0.5) * scale) as usize).min(h as usize - 1);
        let row = &src[sy * stride..sy * stride + w as usize * 4];
        for x in 0..sw {
            let sx = ((((x as f32 + 0.5) * scale) as usize).min(w as usize - 1)) * 4;
            out.extend_from_slice(&row[sx..sx + 4]);
        }
    }
    (sw, sh, out)
}

fn picture(w: u32, h: u32, stride: usize) -> Vec<u8> {
    let mut v = vec![0u8; stride * h as usize];
    for y in 0..h as usize {
        for b in 0..w as usize * 4 {
            v[y * stride + b] = (y * 31 + b * 7 + (y * b) % 251) as u8;
        }
    }
    v
}

#[test]
fn rows_within_tolerance_are_similar() {
    assert!(rows_similar(&[10, 20, 30], &[16, 14, 30]));
    assert!(!rows_similar(&[10, 20, 30], &[17, 20, 30]));
    assert!(!rows_similar(&[10, 20], &[10, 20, 30]));
    assert!(rows_similar(&[], &[]));
}

#[test]
fn downscale_takes_the_nearest_pixels() {
    for (w, h, pad, target) in [
        (200u32, 100u32, 0usize, 64u32),
        (130, 77, 12, 100),
        (1920, 4, 0, 512),
        (50, 50, 8, 10),
        (1, 1, 0, 0),
        (97, 300, 4, 65),
    ] {
        let stride = w as usize * 4 + pad;
        let src = picture(w, h, stride);
        let ours = downscale(w, h, &src, stride, target);
        assert_eq!(ours, native_downscale(w, h, &src, stride, target));
    }
}

#[test]
fn previews_keep_within_the_target() {
    assert_eq!(preview_size(1920, 1080, 512), (512, 288));
    assert_eq!(preview_size(1920, 1080, 10), (10, 6));
    assert_eq!(preview_size(40, 20, 512), (40, 20));
    assert_eq!(preview_size(2000, 1, 64), (64, 1));
    assert_eq!(preview_size(300, 200, 1), (1, 1));
    assert_eq!(preview_size(300, 200, 0), (1, 1));
    for target in 1..64 {
        let src = vec![9u8; 100 * 50 * 4];
        let (w, h, pixels) = downscale(100, 50, &src, 400, target);
        assert!(w <= target);
        assert_eq!(pixels.len(), (w * h * 4) as usize);
    }
}

#[test]
fn crop_removes_the_strips() {
    let data = picture(6, 5, 24);
    let (w, h, out) = crop(6, 5, data.clone(), Strips { top: 1, bottom: 2, left: 2, right: 1 });
    assert_eq!((w, h), (3, 2));
    let mut want = Vec::new();
    for y in 1..3 {
        want.extend_from_slice(&data[y * 24 + 8..y * 24 + 20]);
    }
    assert_eq!(out, want);
}

#[test]
fn crop_that_leaves_nothing_is_not_made() {
    let data = picture(6, 5, 24);
    let all = Strips { top: 2, bottom: 3, left: 0, right: 0 };
    assert_eq!(crop(6, 5, data.clone(), all), (6, 5, data.clone()));
    let wide = Strips { top: 0, bottom: 0, left: u32::MAX, right: u32::MAX };
    assert_eq!(crop(6, 5, data.clone(), wide), (6, 5, data));
}

#[test]
fn bar_strip_lies_at_its_edge() {
    let source = CaptureSource::Workspace(3);
    let size = (192, 108);
    let strip = |edge| bar_strip(&filter(edge, 100, no_clips()), &groups(), &source, size);
    assert_eq!(strip(Edge::Top), Some(Rect { x: 0, y: 0, width: 192, height: 11 }));
    assert_eq!(strip(Edge::Bottom), Some(Rect { x: 0, y: 97, width: 192, height: 11 }));
    assert_eq!(strip(Edge::Left), Some(Rect { x: 0, y: 0, width: 11, height: 108 }));
    assert_eq!(strip(Edge::Right), Some(Rect { x: 181, y: 0, width: 11, height: 108 }));
}

#[test]
fn bar_strip_needs_a_measured_output() {
    let f = filter(Edge::Top, 100, no_clips());
    assert_eq!(bar_strip(&None, &groups(), &CaptureSource::Workspace(3), (10, 10)), None);
    assert_eq!(bar_strip(&f, &groups(), &CaptureSource::Workspace(1), (10, 10)), None);
    assert_eq!(bar_strip(&f, &groups(), &CaptureSource::Workspace(5), (10, 10)), None);
    assert_eq!(bar_strip(&f, &groups(), &CaptureSource::Output(3), (10, 10)), None);
    let flat = Some(BarFilter {
        edge: Edge::Top,
        size: 1,
        outputs: vec![(9, (0, 5))],
        paused: false,
        preview_px: 1,
        clips: Vec::new(),
    });
    assert_eq!(bar_strip(&flat, &groups(), &CaptureSource::Workspace(3), (10, 10)), None);
}

#[test]
fn clips_scale_to_the_buffer() {
    let clips = Strips { top: 33, bottom: 0, left: 100, right: 5 };
    let f = filter(Edge::Left, 100, clips);
    let source = CaptureSource::Workspace(2);
    assert_eq!(
        clip_for(&f, &groups(), &source, (192, 108)),
        Some((Strips { top: 4, bottom: 0, left: 10, right: 1 }, true))
    );
    let f = filter(Edge::Top, 34, clips);
    let got = clip_for(&f, &groups(), &source, (192, 108));
    assert_eq!(got.map(|c| c.1), Some(false));
    assert_eq!(clip_for(&filter(Edge::Top, 34, no_clips()), &groups(), &source, (1, 1)), None);
    assert_eq!(clip_for(&None, &groups(), &source, (1, 1)), None);
}

#[test]
fn changes_in_the_bar_strip_do_not_count() {
    let f = filter(Edge::Top, 540, no_clips());
    let source = CaptureSource::Workspace(2);
    let size = (4, 4);
    let a = vec![100u8; 64];
    let mut b = a.clone();
    b[0] = 200;
    assert!(small_unchanged(&f, &groups(), &source, size, &a, &b, false));
    assert!(!small_unchanged(&f, &groups(), &source, size, &a, &b, true));
    let mut c = a.clone();
    c[63] = 200;
    assert!(!small_unchanged(&f, &groups(), &source, size, &a, &c, false));
    assert!(!small_unchanged(&f, &groups(), &source, size, &a, &a[..60], false));
    assert!(small_unchanged(&None, &groups(), &source, size, &a, &a, false));
}

#[test]
fn idle_sessions_back_off_and_activity_resets() {
    let f = filter(Edge::Top, 10, no_clips());
    let source = CaptureSource::Workspace(2);
    let mut s = ScreencopySession::new();
    let still = vec![7u8; 64];
    let first = s.frame_ready(&f, &groups(), &source, 4, 4, still.clone());
    assert!(first.is_some_and(|i| i.width == 4 && i.height == 4 && i.pixels == still));
    assert_eq!(s.interval, CAPTURE_INTERVAL);
    let mut seen = Vec::new();
    for _ in 0..8 {
        assert!(s.frame_ready(&f, &groups(), &source, 4, 4, still.clone()).is_none());
        seen.push(s.interval);
    }
    assert_eq!(seen, vec![200, 400, 800, 1600, 3200, 6400, 8000, MAX_CAPTURE_INTERVAL]);
    assert!(s.frame_ready(&f, &groups(), &source, 4, 4, vec![90u8; 64]).is_some());
    assert_eq!(s.interval, CAPTURE_INTERVAL);
}

#[test]
fn cropped_previews_are_shown() {
    let f = filter(Edge::Left, 480, Strips { top: 0, bottom: 0, left: 480, right: 0 });
    let mut s = ScreencopySession::new();
    let got = s.frame_ready(&f, &groups(), &CaptureSource::Workspace(2), 4, 4, picture(4, 4, 16));
    let image = got.expect("first frame is shown");
    assert_eq!((image.width, image.height), (3, 4));
    assert_eq!(image.pixels.len(), 48);
}

#[test]
fn sessions_ask_only_with_buffers() {
    let mut s = ScreencopySession::new();
    assert!(!s.attach_buffer_and_commit());
    assert!(!s.in_flight);
    assert!(!s.frame_arrived());
    assert!(!s.timer_fired());
    assert!(s.init_done(formats()));
    assert!(s.in_flight && s.has_buffers);
    assert!(!s.init_done(formats()));
    assert!(s.frame_arrived());
    assert!(!s.in_flight);
    s.wait_for(5);
    assert_eq!(s.reset_interval(), Some(5));
    assert!(s.in_flight && s.timer_token.is_none());
    s.wait_for(6);
    assert_eq!(s.reset_interval(), None);
    assert!(s.timer_fired());
    assert!(s.timer_token.is_none());
}

#[test]
fn failed_captures_recover_or_stop() {
    let mut s = ScreencopySession::new();
    assert_eq!(s.failed(FailureReason::BufferConstraints), Recovery::Wait);
    assert_eq!(s.failed(FailureReason::Stopped), Recovery::Stop);
    assert_eq!(s.failed(FailureReason::Unknown), Recovery::Stop);
    s.has_buffers = true;
    assert_eq!(s.failed(FailureReason::BufferConstraints), Recovery::Retry);
    s.formats = Some(formats());
    assert_eq!(s.failed(FailureReason::BufferConstraints), Recovery::Reallocate);
}

#[test]
fn preview_width_comes_from_the_bar() {
    assert_eq!(preview_target(&None), 512);
    assert_eq!(preview_target(&filter(Edge::Top, 1, no_clips())), 200);
}

#[test]
fn cropping_twice_is_cropping_by_the_sums() {
    let src = picture(9, 8, 36);
    let strips = |top, bottom, left, right| Strips { top, bottom, left, right };
    let (w, h, d) = crop(9, 8, src.clone(), strips(1, 2, 0, 3));
    let twice = crop(w, h, d, strips(2, 1, 2, 1));
    assert_eq!(twice, crop(9, 8, src.clone(), strips(3, 3, 2, 4)));
    assert_eq!(crop(9, 8, src.clone(), no_clips()), (9, 8, src));
}

#[test]
fn only_sampled_rows_have_to_be_there() {
    // Two preview rows, taken from rows 1 and 3
    assert_eq!(preview_size(4, 4, 2), (2, 2));
    assert!(has_rows(4, 4, 3 * 16 + 16, 16, 2));
    assert!(!has_rows(4, 4, 3 * 16 + 15, 16, 2));
    // One preview row, taken from row 1
    assert_eq!(preview_size(3, 3, 1), (1, 1));
    assert!(has_rows(3, 3, 12 + 12, 12, 1));
    assert!(!has_rows(3, 3, 12 + 11, 12, 1));
    assert_eq!(downscale(3, 3, &picture(3, 2, 12), 12, 1).0, 1);
}
