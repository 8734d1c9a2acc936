use cosmic_ext_workspaces_bar::backend::buffers::{
    create_buffer, create_capture_buffer, create_dmabuf_buffer, create_memfile, full_damage,
    import_attribs, memfile_name, needs_new_dest, readback_len, render_node_matches, BufferPlan,
    GpuContext, GpuOutcome, GpuPlan, MemfileStep, Plane, ShmOpen, ABGR8888, EGL_HEIGHT, EGL_NONE,
    EGL_WIDTH,
};
use cosmic_ext_workspaces_bar::backend::captures::{
    Backend, Cmd, Compositor, Frame, Ready, Seat, Step, Toplevel, WorkspaceInfo,
};
use cosmic_ext_workspaces_bar::backend::pixels::Strips;
use cosmic_ext_workspaces_bar::backend::power::{event_of, Event, Signal};
use cosmic_ext_workspaces_bar::backend::session::{FailureReason, Formats, Recovery};
use cosmic_ext_workspaces_bar::backend::strips::{BarFilter, CaptureSource, Group, Rect};
use cosmic_ext_workspaces_bar::config::Edge;

fn info(handle: u64) -> WorkspaceInfo {
    WorkspaceInfo {
        handle,
        name: format!("{handle}"),
        coordinates: vec![handle as u32],
        active: false,
        can_activate: true,
        cosmic_handle: true,
        cosmic_rename: true,
    }
}

fn filter(paused: bool) -> BarFilter {
    BarFilter {
        edge: Edge::Top,
        size: 10,
        outputs: vec![(9, (100, 100))],
        paused,
        preview_px: 64,
        clips: vec![(9, Strips { top: 0, bottom: 0, left: 0, right: 0 })],
    }
}

fn compositor() -> Compositor {
    let mut plain = info(2);
    plain.cosmic_handle = false;
    Compositor {
        workspace_manager: true,
        workspaces: vec![info(1), plain],
        toplevels: vec![
            Toplevel {
                app_id: "org.gnome.Terminal".to_string(),
                workspaces: vec![1],
                cosmic_toplevel: true,
            },
            Toplevel {
                app_id: "com.Spotify.Client".to_string(),
                workspaces: vec![2, 1],
                cosmic_toplevel: true,
            },
        ],
        toplevel_manager: true,
        seat: true,
    }
}

fn text(steps: &[Step]) -> Vec<String> {
    steps
        .iter()
        .map(|s| match s {
            Step::ActivateWorkspace(w) => format!("activate {w}"),
            Step::RenameWorkspace(w, n) => format!("rename {w} {n}"),
            Step::Commit => "commit".to_string(),
            Step::ActivateToplevel(i) => format!("window {i}"),
            Step::StartSession(s) => format!("start {s:?}"),
            Step::StopSession(s) => format!("stop {s:?}"),
            Step::RemoveTimer(t) => format!("timer {t}"),
            Step::RequestFrame(s) => format!("request {s:?}"),
        })
        .collect()
}

fn groups() -> Vec<Group> {
    vec![
        Group { workspaces: vec![1, 4], outputs: vec![9] },
        Group { workspaces: vec![2], outputs: vec![8] },
    ]
}

fn formats() -> Formats {
    Formats {
        buffer_size: (64, 2),
        shm_formats: vec![ABGR8888],
        dmabuf_device: Some(3),
        dmabuf_formats: vec![(1, vec![5]), (ABGR8888, vec![7, 8])],
    }
}

#[test]
fn listed_workspaces_are_captured() {
    let mut b = Backend::new();
    let (list, steps) = b.workspaces_done(&groups(), &vec![info(1), info(2)]);
    assert_eq!(list, vec![(0, 0), (1, 1)]);
    assert_eq!(text(&steps), vec!["start Workspace(1)", "start Workspace(2)"]);
    let (list, steps) = b.workspaces_done(&groups(), &vec![info(2), info(4)]);
    assert_eq!(list, vec![(0, 1), (1, 0)]);
    assert_eq!(text(&steps), vec!["stop Workspace(1)", "start Workspace(4)"]);
    assert_eq!(b.captures.len(), 2);
}

#[test]
fn pausing_ends_sessions_and_going_on_starts_them() {
    let mut b = Backend::new();
    b.workspaces_done(&groups(), &vec![info(1)]);
    let c = compositor();
    let steps = b.handle_cmd(Cmd::BarFilter(filter(true)), &c);
    assert_eq!(text(&steps), vec!["stop Workspace(1)"]);
    assert!(b.captures_paused());
    assert!(b.handle_cmd(Cmd::BarFilter(filter(true)), &c).is_empty());
    assert!(b.add_capture_source(CaptureSource::Workspace(7)).is_empty());
    assert!(b.handle_cmd(Cmd::RefreshCaptures, &c).is_empty());
    let steps = b.handle_cmd(Cmd::BarFilter(filter(false)), &c);
    assert_eq!(text(&steps), vec!["start Workspace(1)", "start Workspace(7)"]);
}

#[test]
fn refreshing_starts_all_sessions_anew() {
    let mut b = Backend::new();
    b.add_capture_source(CaptureSource::Workspace(1));
    b.captures[0].session.as_mut().unwrap().interval = 8000;
    let steps = b.handle_cmd(Cmd::RefreshCaptures, &compositor());
    assert_eq!(text(&steps), vec!["stop Workspace(1)", "start Workspace(1)"]);
    assert_eq!(b.captures[0].session.as_ref().unwrap().interval, 100);
}

#[test]
fn workspace_changes_bring_waiting_requests_forward() {
    let mut b = Backend::new();
    let source = CaptureSource::Workspace(1);
    b.add_capture_source(source);
    assert!(b.init_done(&source, formats()));
    b.ready(&source, &groups(), (64, 2), Frame::Unreadable);
    b.wait_for(&source, 77);
    assert_eq!(
        text(&b.reset_capture_intervals()),
        vec!["timer 77", "request Workspace(1)"]
    );
    assert!(b.reset_capture_intervals().is_empty());
}

#[test]
fn workspaces_are_activated_and_renamed() {
    let mut b = Backend::new();
    let mut c = compositor();
    let run = |b: &mut Backend, cmd, c: &Compositor| text(&b.handle_cmd(cmd, c));
    assert_eq!(run(&mut b, Cmd::ActivateWorkspace(2), &c), vec!["activate 2", "commit"]);
    let rename = |w| Cmd::RenameWorkspace(w, "x".to_string());
    assert_eq!(run(&mut b, rename(1), &c), vec!["rename 1 x", "commit"]);
    assert!(run(&mut b, rename(2), &c).is_empty());
    assert!(run(&mut b, rename(3), &c).is_empty());
    c.workspace_manager = false;
    assert!(run(&mut b, Cmd::ActivateWorkspace(2), &c).is_empty());
    assert_eq!(run(&mut b, rename(1), &c), vec!["rename 1 x"]);
}

#[test]
fn windows_are_found_by_part_of_their_name() {
    let mut b = Backend::new();
    let mut c = compositor();
    let find = |id: &str| Cmd::ActivateToplevelByAppId(id.to_string());
    assert_eq!(
        text(&b.handle_cmd(find("SPOTIFY"), &c)),
        vec!["activate 2", "commit", "window 1"]
    );
    assert_eq!(
        text(&b.handle_cmd(find("org.gnome.Terminal.Preferences"), &c)),
        vec!["activate 1", "commit", "window 0"]
    );
    assert!(b.handle_cmd(find("firefox"), &c).is_empty());
    c.seat = false;
    assert_eq!(text(&b.handle_cmd(find("spotify"), &c)), vec!["activate 2", "commit"]);
    c.seat = true;
    c.workspace_manager = false;
    assert_eq!(text(&b.handle_cmd(find("spotify"), &c)), vec!["window 1"]);
}

#[test]
fn frames_become_previews() {
    let mut b = Backend::new();
    let source = CaptureSource::Workspace(1);
    let data = vec![50u8; 64 * 2 * 4];
    let raw = || Frame::Raw { data: &data, stride: 256 };
    assert!(matches!(b.ready(&source, &groups(), (64, 2), raw()), Ready::Nothing));
    b.add_capture_source(source);
    assert!(matches!(b.ready(&source, &groups(), (64, 2), raw()), Ready::Nothing));
    b.init_done(&source, formats());
    match b.ready(&source, &groups(), (64, 2), raw()) {
        Ready::Next { delay, image } => {
            assert_eq!(delay, 100);
            let image = image.unwrap();
            assert_eq!((image.width, image.height), (64, 2));
            assert_eq!(image.pixels, data);
        }
        Ready::Nothing => panic!("a readable frame is taken in"),
    }
    let scaled = Frame::Scaled { width: 64, height: 2, pixels: data.clone() };
    match b.ready(&source, &groups(), (64, 2), scaled) {
        Ready::Next { delay, image } => {
            assert_eq!(delay, 200);
            assert!(image.is_none());
        }
        Ready::Nothing => panic!("a scaled frame is taken in"),
    }
    let frame = Frame::Unreadable;
    assert!(matches!(b.ready(&source, &groups(), (64, 2), frame), Ready::Nothing));
    assert!(b.timer_fired(&source));
}

#[test]
fn sessions_end_when_captures_fail() {
    let mut b = Backend::new();
    let source = CaptureSource::Workspace(1);
    assert_eq!(b.failed(&source, FailureReason::Stopped), Recovery::Wait);
    b.add_capture_source(source);
    b.init_done(&source, formats());
    assert_eq!(b.failed(&source, FailureReason::BufferConstraints), Recovery::Reallocate);
    assert_eq!(b.failed(&source, FailureReason::Stopped), Recovery::Stop);
    assert!(b.captures[0].session.is_none());
    assert!(!b.stopped(&source));
    assert!(!b.timer_fired(&source));
    b.retain_capture_sources(&Vec::new());
    b.add_capture_source(source);
    assert!(b.stopped(&source));
}

#[test]
fn the_first_seat_counts() {
    let mut s = Seat { current: None };
    s.new_seat(4);
    s.new_seat(5);
    assert_eq!(s.current, Some(4));
    s.remove_seat(5);
    assert_eq!(s.current, Some(4));
    s.remove_seat(4);
    assert_eq!(s.current, None);
}

#[test]
fn gpu_buffers_are_preferred() {
    let mut f = formats();
    assert_eq!(create_capture_buffer(&f), BufferPlan::Dmabuf { device: 3, format: 1 });
    assert_eq!(create_dmabuf_buffer(&f.dmabuf_formats), Some(1));
    f.dmabuf_formats[1].1.clear();
    assert_eq!(create_capture_buffer(&f), BufferPlan::Shm);
    f.dmabuf_formats.clear();
    assert_eq!(create_capture_buffer(&f), BufferPlan::Shm);
    f = formats();
    f.dmabuf_device = None;
    assert_eq!(create_capture_buffer(&f), BufferPlan::Shm);
}

#[test]
fn shared_memory_holds_the_frame() {
    let layout = create_buffer(&formats());
    assert_eq!(layout.bytes, 64 * 2 * 4);
    assert_eq!(layout.pool, 512);
    assert_eq!((layout.width, layout.height, layout.stride), (64, 2, 256));
    assert_eq!(full_damage((64, 2)), Rect { x: 0, y: 0, width: 64, height: 2 });
    assert_eq!(readback_len((64, 2)), 512);
    assert!(needs_new_dest(None, (64, 2)));
    assert!(needs_new_dest(Some((64, 3)), (64, 2)));
    assert!(!needs_new_dest(Some((64, 2)), (64, 2)));
}

#[test]
fn render_nodes_are_told_by_name_and_device() {
    assert!(render_node_matches("renderD128", Some(5), 5));
    assert!(!render_node_matches("renderD128", Some(6), 5));
    assert!(!render_node_matches("renderD128", None, 5));
    assert!(!render_node_matches("card0", Some(5), 5));
}

#[test]
fn a_failed_gpu_context_is_not_tried_again() {
    let mut g = GpuContext::new();
    assert_eq!(g.gpu_downscaler(1), GpuPlan::Create);
    assert!(!g.made(1, GpuOutcome::NoDevice));
    assert_eq!(g.gpu_downscaler(1), GpuPlan::Create);
    assert!(g.made(1, GpuOutcome::Created));
    assert_eq!(g.gpu_downscaler(1), GpuPlan::Reuse);
    assert_eq!(g.gpu_downscaler(2), GpuPlan::Create);
    assert!(!g.made(2, GpuOutcome::Failed));
    assert_eq!(g.gpu_downscaler(1), GpuPlan::Unavailable);
}

#[test]
fn planes_are_imported_by_their_attributes() {
    let plane = |fd| Plane { fd, offset: 16, stride: 256 };
    let modifier = 0x0102_0304_f506_0708;
    let low = 0xf506_0708u32 as i32;
    let got = import_attribs(64, 2, ABGR8888, modifier, &vec![plane(4), plane(5)]).unwrap();
    let want = vec![
        EGL_WIDTH,
        64,
        EGL_HEIGHT,
        2,
        0x3271,
        ABGR8888 as i32,
        0x3272,
        4,
        0x3273,
        16,
        0x3274,
        256,
        0x3443,
        low,
        0x3444,
        0x0102_0304,
        0x3275,
        5,
        0x3276,
        16,
        0x3277,
        256,
        0x3445,
        low,
        0x3446,
        0x0102_0304,
        EGL_NONE,
    ];
    assert_eq!(got, want);
    assert!(import_attribs(64, 2, ABGR8888, modifier, &Vec::new()).is_none());
    assert!(import_attribs(64, 2, ABGR8888, modifier, &vec![plane(1); 4]).is_none());
    assert_eq!(EGL_WIDTH, khronos_egl::WIDTH);
    assert_eq!(EGL_HEIGHT, khronos_egl::HEIGHT);
    assert_eq!(EGL_NONE, khronos_egl::NONE);
}

#[test]
fn memory_files_get_another_name_where_one_exists() {
    assert_eq!(create_memfile(ShmOpen::Opened { unlinked: true }), MemfileStep::Ready);
    assert_eq!(create_memfile(ShmOpen::Opened { unlinked: false }), MemfileStep::GiveUp);
    assert_eq!(create_memfile(ShmOpen::Exists), MemfileStep::TryAgain);
    assert_eq!(create_memfile(ShmOpen::Failed), MemfileStep::GiveUp);
    assert_eq!(memfile_name(120_034), "/cosmic-ext-workspaces-bar-shm-120034");
    assert_eq!(memfile_name(0), "/cosmic-ext-workspaces-bar-shm-0");
}

#[test]
fn waking_up_and_unlocking_refresh_previews() {
    assert_eq!(event_of(Signal::PrepareForSleep { start: true }), None);
    assert_eq!(event_of(Signal::PrepareForSleep { start: false }), Some(Event::Resumed));
    assert_eq!(event_of(Signal::Unlock), Some(Event::Resumed));
}
