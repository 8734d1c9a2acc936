use cosmic_ext_workspaces_bar::backend::captures::{Cmd, WorkspaceInfo};
use cosmic_ext_workspaces_bar::backend::media::player::{
    ArtSource, Control, PlaybackStatus, PlayerState,
};
use cosmic_ext_workspaces_bar::backend::pixels::Strips;
use cosmic_ext_workspaces_bar::backend::power;
use cosmic_ext_workspaces_bar::bar::actions::Action;
use cosmic_ext_workspaces_bar::bar::app::App;
use cosmic_ext_workspaces_bar::bar::geometry::{
    edge_clips, hidden_margin, surface_size, Output, Rectangle, Reserved, Thumbnail,
};
use cosmic_ext_workspaces_bar::bar::model::{
    BackendEvent, Listed, Msg, OutputEvent, OutputInfo, OverlapEvent, WaylandEvent,
};
use cosmic_ext_workspaces_bar::bar::shell::{
    forwards, Activation, Args, Content, EventKind,
};
use cosmic_ext_workspaces_bar::config::{Clip, Config, Edge, PanelTheme};
use cosmic_ext_workspaces_bar::float::double::F64;
use cosmic_ext_workspaces_bar::float::single::F32;
use cosmic_ext_workspaces_bar::settings::SettingsMsg;

fn num(x: f32) -> F32 {
    F32 { bits: x.to_bits() }
}

fn show(list: &[Action]) -> Vec<String> {
    list.iter()
        .map(|a| match a {
            Action::CreateBar { id, output, size, exclusive_zone, anchor } => {
                let edges = [anchor.top, anchor.bottom, anchor.left, anchor.right];
                let n = edges.iter().filter(|e| **e).count();
                format!("bar {id} on {output} {size:?} zone {exclusive_zone} edges {n}")
            }
            Action::CreateProbe { id, output } => format!("probe {id} on {output}"),
            Action::CreateSettings { id, width, height } => {
                format!("settings {id} {width}x{height}")
            }
            Action::CreateRename { id, width, height } => format!("rename {id} {width}x{height}"),
            Action::CreateMenu { id, parent, width, height, x, y } => {
                format!("menu {id} of {parent} {width}x{height} at {x},{y}")
            }
            Action::DestroySurface(id) => format!("destroy {id}"),
            Action::DestroyPopup(id) => format!("destroy popup {id}"),
            Action::SetSize { id, to } => format!("size {id} {to:?}"),
            Action::SetZone { id, zone } => format!("zone {id} {zone}"),
            Action::SetMargin { id, margin } => format!("margin {id} {margin:?}"),
            Action::SetBlur { id, enabled } => format!("blur {id} {enabled}"),
            Action::HideAfter { id, generation, wait } => {
                format!("hide {id} generation {generation} after {wait}")
            }
            Action::Send(Cmd::ActivateWorkspace(w)) => format!("activate {w}"),
            Action::Send(Cmd::RenameWorkspace(w, n)) => format!("rename {w} to {n}"),
            Action::Send(Cmd::ActivateToplevelByAppId(a)) => format!("window {a}"),
            Action::Send(Cmd::RefreshCaptures) => "refresh".to_string(),
            Action::Send(Cmd::BarFilter(f)) => {
                format!("filter paused {} px {} outputs {}", f.paused, f.preview_px, f.outputs.len())
            }
            Action::SyncPickers => "pickers".to_string(),
            Action::SetPreferred(p) => format!("prefer {p}"),
            Action::MediaControl { player, control } => format!("{} {player}", control.method()),
            Action::Raise(p) => format!("raise {p}"),
            Action::AdjustVolume { player, delta } => {
                format!("volume {player} {}", f64::from_bits(delta.bits))
            }
            Action::HideVolumeAfter { generation, wait } => {
                format!("volume generation {generation} hides after {wait}")
            }
            Action::FetchArt(u) => format!("fetch {u}"),
            Action::Store(w) => format!("store {}", w.key()),
        })
        .collect()
}

fn config(edge: Edge, fill: bool, autohide: bool) -> Config {
    let mut c = Config::default();
    c.edge = edge;
    c.fill = fill;
    c.autohide = autohide;
    c
}

fn started(c: Config) -> App {
    let (mut app, _) = App::init(&Args::default(), c, false, true);
    app.update(Msg::Wayland(BackendEvent::CmdSender));
    app
}

fn output(app: &mut App, handle: u64) -> Vec<String> {
    let info = OutputInfo { name: Some("DP-1".to_string()), logical_size: Some((1920, 1080)) };
    show(&app.update(Msg::WaylandEvent(WaylandEvent::Output {
        event: OutputEvent::Created(Some(info)),
        output: handle,
        alive: true,
    })))
}

fn listed(handle: u64, coordinates: Vec<u32>, active: bool, outputs: Vec<u64>) -> Listed {
    Listed {
        outputs,
        info: WorkspaceInfo {
            handle,
            name: format!("{handle}"),
            coordinates,
            active,
            can_activate: true,
            cosmic_handle: true,
            cosmic_rename: true,
        },
    }
}

fn player(art: Option<ArtSource>) -> PlayerState {
    PlayerState {
        bus_name: "bus".to_string(),
        status: PlaybackStatus::Playing,
        title: "t".to_string(),
        artist: "a".to_string(),
        art,
        desktop_entry: "app".to_string(),
        can_raise: true,
        can_go_next: true,
        can_go_previous: true,
        can_play_pause: true,
    }
}

#[test]
fn hidden_bars_leave_a_handle() {
    assert_eq!(hidden_margin(Edge::Top, 100), (-96, 0, 0, 0));
    assert_eq!(hidden_margin(Edge::Bottom, 100), (0, 0, -96, 0));
    assert_eq!(hidden_margin(Edge::Left, 100), (0, 0, 0, -96));
    assert_eq!(hidden_margin(Edge::Right, 100), (0, -96, 0, 0));
    assert_eq!(hidden_margin(Edge::Right, 3), (0, 0, 0, 0));
}

#[test]
fn settings_open_on_request_at_the_start() {
    let args = |list: &[&str]| Args::parse(&list.iter().map(|s| s.to_string()).collect());
    assert!(args(&["bar"]).action().is_none());
    let flags = args(&["bar", "--settings"]);
    assert_eq!(flags.action().map(|s| s.as_str()), Some("settings"));
    let (app, acts) = App::init(&flags, Config::default(), false, true);
    assert_eq!(app.settings.window, Some(0));
    assert_eq!(show(&acts), vec!["prefer ", "settings 0 520x720"]);
    let (app, acts) = App::init(&Args::default(), Config::default(), false, true);
    assert!(app.settings.window.is_none());
    assert_eq!(show(&acts), vec!["prefer "]);
}

#[test]
fn outputs_get_a_bar_and_a_probe() {
    let mut app = started(config(Edge::Right, true, false));
    assert_eq!(
        output(&mut app, 50),
        vec![
            "filter paused false px 512 outputs 1",
            "bar 0 on 50 Some((Some(256), None)) zone 256 edges 3",
            "blur 0 false",
            "probe 1 on 50",
        ]
    );
    assert!(app.subscription().wayland);
    let gone = app.update(Msg::WaylandEvent(WaylandEvent::Output {
        event: OutputEvent::Removed,
        output: 50,
        alive: true,
    }));
    assert_eq!(
        show(&gone),
        vec!["filter paused false px 512 outputs 0", "destroy 0", "destroy 1"]
    );
    assert!(app.layer_surfaces.is_empty() && app.probe_surfaces.is_empty());
    assert!(app.outputs.is_empty());
}

#[test]
fn outputs_without_a_size_are_ignored() {
    let mut app = started(Config::default());
    let nameless = OutputInfo { name: None, logical_size: Some((1, 1)) };
    for event in [OutputEvent::Created(None), OutputEvent::Created(Some(nameless))] {
        let acts = app.update(Msg::WaylandEvent(WaylandEvent::Output {
            event,
            output: 1,
            alive: false,
        }));
        assert!(acts.is_empty());
    }
    assert!(!app.subscription().wayland);
}

#[test]
fn bars_hide_after_the_pointer_has_left() {
    let mut app = started(config(Edge::Left, true, true));
    let acts = output(&mut app, 50);
    assert_eq!(acts[1], "bar 0 on 50 Some((Some(256), None)) zone 0 edges 3");
    assert_eq!(acts[3], "hide 0 generation 1 after 1000");
    assert!(app.update(Msg::BarEnter(0)).is_empty());
    assert!(app.update(Msg::HideTimeout(0, 1)).is_empty());
    assert_eq!(show(&app.update(Msg::BarExit(0))), vec!["hide 0 generation 3 after 1000"]);
    assert!(app.update(Msg::HideTimeout(0, 1)).is_empty());
    assert_eq!(
        show(&app.update(Msg::HideTimeout(0, 3))),
        vec!["filter paused true px 512 outputs 1", "margin 0 (0, 0, 0, -252)"]
    );
    assert!(app.update(Msg::HideTimeout(0, 3)).is_empty());
    assert_eq!(
        show(&app.update(Msg::BarEnter(0))),
        vec!["filter paused false px 512 outputs 1", "margin 0 (0, 0, 0, 0)"]
    );
    assert!(app.update(Msg::BarExit(9)).is_empty());
}

#[test]
fn fixed_bars_ignore_the_pointer() {
    let mut app = started(config(Edge::Left, true, false));
    output(&mut app, 50);
    assert!(app.update(Msg::BarEnter(0)).is_empty());
    assert!(app.update(Msg::BarExit(0)).is_empty());
    assert!(app.update(Msg::HideTimeout(0, 0)).is_empty());
}

#[test]
fn settings_pause_captures_while_open() {
    let mut app = started(Config::default());
    output(&mut app, 50);
    assert_eq!(
        show(&app.update(Msg::OpenSettings)),
        vec!["filter paused true px 512 outputs 1", "settings 2 520x720"]
    );
    assert!(app.update(Msg::OpenSettings).is_empty());
    assert_eq!(app.view_window(2), Content::Settings);
    assert!(app.update(Msg::CloseWindow(7)).is_empty());
    assert_eq!(
        show(&app.update(Msg::CloseWindow(2))),
        vec!["filter paused false px 512 outputs 1", "destroy 2"]
    );
    assert!(app.update(Msg::CloseSettings).is_empty());
    assert_eq!(app.dbus_activation(Activation::Activate).len(), 2);
    assert!(app.dbus_activation(Activation::ActivateAction).is_empty());
    assert!(app.dbus_activation(Activation::Open).is_empty());
    let acts = app.update(Msg::WaylandEvent(WaylandEvent::LayerDone(3)));
    assert_eq!(show(&acts), vec!["filter paused false px 512 outputs 1"]);
    assert!(app.settings.window.is_none());
}

#[test]
fn menus_open_at_the_pointer() {
    let mut app = started(Config::default());
    output(&mut app, 50);
    app.update(Msg::BarMove(0, (num(12.7), num(-3.2))));
    let ws = Some((7, "seven".to_string()));
    assert_eq!(
        show(&app.update(Msg::OpenContextMenu(0, ws.clone()))),
        vec!["menu 2 of 0 220x84 at 12,-3"]
    );
    assert!(app.update(Msg::OpenContextMenu(0, None)).is_empty());
    assert_eq!(
        show(&app.update(Msg::OpenContextMenu(0, ws))),
        vec!["destroy popup 2", "menu 3 of 0 220x84 at 12,-3"]
    );
    assert_eq!(app.view_window(3), Content::Menu);
    app.update(Msg::WaylandEvent(WaylandEvent::PopupDone(2)));
    assert!(app.context_menu.is_some());
    app.update(Msg::WaylandEvent(WaylandEvent::PopupDone(3)));
    assert!(app.context_menu.is_none());
    assert_eq!(
        show(&app.update(Msg::OpenContextMenu(0, None))),
        vec!["menu 4 of 0 220x44 at 12,-3"]
    );
    assert_eq!(
        show(&app.update(Msg::MenuSettings)),
        vec!["destroy popup 4", "filter paused true px 512 outputs 1", "settings 5 520x720"]
    );
    assert!(app.update(Msg::OpenContextMenu(44, None)).is_empty());
}

#[test]
fn workspaces_are_renamed_to_what_was_typed() {
    let mut app = started(Config::default());
    output(&mut app, 50);
    app.update(Msg::OpenContextMenu(0, Some((7, "seven".to_string()))));
    assert_eq!(
        show(&app.update(Msg::MenuRename)),
        vec!["destroy popup 2", "rename 3 360x150"]
    );
    assert_eq!(app.rename.as_ref().map(|d| d.value.as_str()), Some("seven"));
    assert_eq!(app.view_window(3), Content::Rename);
    app.update(Msg::RenameInput("eight".to_string()));
    assert_eq!(
        show(&app.update(Msg::RenameSubmit)),
        vec!["rename 7 to eight", "destroy 3"]
    );
    assert!(app.update(Msg::RenameSubmit).is_empty());
    assert!(app.update(Msg::MenuRename).is_empty());
    app.update(Msg::OpenContextMenu(0, Some((7, "seven".to_string()))));
    app.update(Msg::MenuRename);
    assert_eq!(show(&app.update(Msg::RenameCancel)), vec!["destroy 5"]);
}

#[test]
fn scrolling_goes_round_the_workspaces_of_an_output() {
    let mut app = started(Config::default());
    app.update(Msg::Wayland(BackendEvent::Workspaces(vec![
        listed(3, vec![2], false, vec![50]),
        listed(1, vec![0], true, vec![50]),
        listed(9, vec![1], true, vec![51]),
        listed(2, vec![1], false, vec![50]),
    ])));
    let order: Vec<u64> = app.workspaces.iter().map(|w| w.handle()).collect();
    assert_eq!(order, vec![1, 9, 2, 3]);
    let mut scroll = |out, steps| show(&app.update(Msg::OnScroll(out, steps)));
    assert_eq!(scroll(50, -1), vec!["activate 2"]);
    assert_eq!(scroll(50, 1), vec!["activate 3"]);
    assert_eq!(scroll(50, 3), vec!["activate 1"]);
    assert_eq!(scroll(50, -5), vec!["activate 3"]);
    assert_eq!(scroll(51, 1), vec!["activate 9"]);
    assert!(scroll(50, 0).is_empty());
    assert!(scroll(77, 1).is_empty());
    assert_eq!(show(&app.update(Msg::ActivateWorkspace(2))), vec!["activate 2"]);
}

#[test]
fn coordinates_sort_the_workspaces() {
    let mut app = started(Config::default());
    app.update(Msg::Wayland(BackendEvent::Workspaces(vec![
        listed(1, vec![1, 0], false, Vec::new()),
        listed(2, vec![1], false, Vec::new()),
        listed(3, vec![0, 9], false, Vec::new()),
        listed(4, vec![1], false, Vec::new()),
        listed(5, Vec::new(), false, Vec::new()),
    ])));
    let order: Vec<u64> = app.workspaces.iter().map(|w| w.handle()).collect();
    assert_eq!(order, vec![5, 3, 2, 4, 1]);
}

#[test]
fn previews_survive_new_lists() {
    let mut app = started(Config::default());
    let list = |order: [u64; 2]| {
        order.iter().map(|h| listed(*h, vec![*h as u32], false, Vec::new())).collect()
    };
    app.update(Msg::Wayland(BackendEvent::Workspaces(list([1, 2]))));
    let image = Thumbnail { width: 4, height: 3, image: 8 };
    app.update(Msg::Wayland(BackendEvent::WorkspaceCapture(2, image)));
    app.update(Msg::Wayland(BackendEvent::WorkspaceCapture(77, image)));
    app.update(Msg::Wayland(BackendEvent::Workspaces(list([2, 3]))));
    assert_eq!(app.workspaces[0].img, Some(image));
    assert_eq!(app.workspaces[1].img, None);
}

#[test]
fn centered_bars_are_as_long_as_their_content() {
    let mut app = started(config(Edge::Right, false, false));
    let acts = output(&mut app, 50);
    let one = (232.0f32 / (1920.0 / 1080.0) + 4.0 + 20.0 + 8.0 + 16.0).ceil() as u32;
    assert_eq!(acts[1], format!("bar 0 on 50 Some((Some(256), Some({one}))) zone 256 edges 1"));
    let list = vec![listed(1, vec![0], true, vec![50]), listed(2, vec![1], false, vec![50])];
    let acts = app.update(Msg::Wayland(BackendEvent::Workspaces(list)));
    let item = 232.0f32 / (1920.0 / 1080.0) + 4.0 + 20.0 + 8.0;
    let two = (2.0 * item + 8.0 + 16.0).ceil() as u32;
    assert_eq!(show(&acts), vec![format!("size 0 (Some(256), Some({two}))")]);
    let list = vec![listed(1, vec![0], true, vec![50]), listed(2, vec![1], false, vec![50])];
    assert!(app.update(Msg::Wayland(BackendEvent::Workspaces(list))).is_empty());
}

#[test]
fn media_makes_centered_bars_longer() {
    let mut c = config(Edge::Top, false, false);
    c.media_enabled = true;
    let mut app = started(c);
    output(&mut app, 50);
    let before = app.layer_surfaces[0].1.last_size;
    app.update(Msg::Media(Some(player(None)), None));
    let after = app.layer_surfaces[0].1.last_size;
    let length = |s: Option<(Option<u32>, Option<u32>)>| s.unwrap().0.unwrap();
    assert_eq!(length(after), length(before) + (208 + 8) + 8);
    app.update(Msg::Media(None, None));
    assert_eq!(app.layer_surfaces[0].1.last_size, before);
}

fn reserved(namespace: &str, exclusive: u32, x: f32, y: f32, w: f32, h: f32) -> OverlapEvent {
    OverlapEvent::LayerAdd {
        identifier: format!("{namespace}{x}{y}"),
        namespace: namespace.to_string(),
        exclusive,
        rect: Rectangle { x: num(x), y: num(y), width: num(w), height: num(h) },
    }
}

#[test]
fn reserved_strips_are_cropped() {
    let mut c = config(Edge::Right, false, false);
    c.clip = Clip::AllBars;
    let mut app = started(c);
    output(&mut app, 50);
    let mut tell = |overlap, id| {
        app.update(Msg::WaylandEvent(WaylandEvent::OverlapNotify { overlap, id })).len()
    };
    assert!(tell(reserved("panel", 32, 0.0, 0.0, 1920.0, 32.0), 1) > 0);
    tell(reserved("dock", 60, 0.0, 1020.4, 1920.0, 59.6), 1);
    tell(reserved("workspaces-bar", 256, 1664.0, 0.0, 256.0, 1080.0), 1);
    tell(reserved("overlay", 0, 0.0, 0.0, 900.0, 1080.0), 1);
    assert_eq!(tell(reserved("panel", 32, 0.0, 0.0, 1920.0, 32.0), 99), 0);
    assert_eq!(tell(OverlapEvent::Other, 1), 0);
    assert_eq!(tell(OverlapEvent::LayerRemove { identifier: "nobody".to_string() }, 1), 0);
    let clips = |app: &App, clip| edge_clips(clip, &app.outputs, &app.reserved, 50);
    assert_eq!(
        clips(&app, Clip::AllBars),
        Strips { top: 32, bottom: 60, left: 0, right: 256 }
    );
    assert_eq!(clips(&app, Clip::OwnBar), Strips { top: 0, bottom: 0, left: 0, right: 256 });
    assert_eq!(clips(&app, Clip::Nothing), Strips { top: 0, bottom: 0, left: 0, right: 0 });
    let size = surface_size(&app.config, &app.outputs, &app.reserved, &app.workspaces, false, 50);
    let aspect = (1920.0f32 - 256.0) / (1080.0 - 92.0);
    let len = (232.0 / aspect + 4.0 + 20.0 + 8.0 + 16.0).ceil() as u32;
    assert_eq!(size, Some((Some(256), Some(len))));
    let gone = OverlapEvent::LayerRemove { identifier: "panel00".to_string() };
    app.update(Msg::WaylandEvent(WaylandEvent::OverlapNotify { overlap: gone, id: 1 }));
    assert_eq!(clips(&app, Clip::AllBars).top, 0);
    app.update(Msg::WaylandEvent(WaylandEvent::LayerDone(1)));
    assert!(app.reserved.is_empty());
}

#[test]
fn crops_that_leave_nothing_fall_back_to_the_usual_shape() {
    let mut c = config(Edge::Left, false, false);
    c.clip = Clip::AllBars;
    let outputs = vec![Output { handle: 5, name: String::new(), width: 100, height: 50 }];
    let strip = Reserved {
        probe: 1,
        identifier: String::new(),
        output: 5,
        namespace: String::new(),
        exclusive: 1,
        rect: Rectangle { x: num(0.0), y: num(0.0), width: num(100.0), height: num(50.0) },
    };
    let usual = surface_size(&c, &Vec::new(), &Vec::new(), &Vec::new(), false, 5);
    assert_eq!(surface_size(&c, &outputs, &vec![strip], &Vec::new(), false, 5), usual);
}

#[test]
fn another_place_takes_new_surfaces() {
    let mut app = started(config(Edge::Right, true, false));
    output(&mut app, 50);
    let mut c = config(Edge::Top, true, false);
    c.preferred_player = "vlc".to_string();
    assert_eq!(
        show(&app.update(Msg::Config(c.clone()))),
        vec![
            "pickers",
            "prefer vlc",
            "filter paused false px 512 outputs 1",
            "destroy 0",
            "bar 2 on 50 Some((None, Some(256))) zone 256 edges 3",
            "blur 2 false",
        ]
    );
    assert!(app.update(Msg::Config(c)).is_empty());
}

#[test]
fn another_look_keeps_the_surfaces() {
    let mut app = started(config(Edge::Right, true, false));
    output(&mut app, 50);
    let mut c = config(Edge::Right, true, true);
    c.blur = Some(true);
    assert_eq!(
        show(&app.update(Msg::Config(c.clone()))),
        vec![
            "pickers",
            "blur 0 true",
            "zone 0 0",
            "hide 0 generation 1 after 1000",
            "filter paused false px 512 outputs 1",
        ]
    );
    c.autohide = false;
    assert_eq!(
        show(&app.update(Msg::Config(c.clone()))),
        vec![
            "pickers",
            "zone 0 256",
            "filter paused false px 512 outputs 1",
            "margin 0 (0, 0, 0, 0)",
            "filter paused false px 512 outputs 1",
        ]
    );
    c.round_edge_corners = false;
    assert_eq!(show(&app.update(Msg::Config(c.clone()))), vec!["pickers"]);
    c.clip = Clip::Nothing;
    assert_eq!(
        show(&app.update(Msg::Config(c))),
        vec!["pickers", "filter paused false px 512 outputs 1"]
    );
}

#[test]
fn previews_are_twice_as_wide_as_the_bar() {
    for (size, px) in [(64u32, 128u32), (10, 128), (100, 200), (256, 512), (400, 512)] {
        let mut c = Config::default();
        c.size = size;
        let (mut app, _) = App::init(&Args::default(), c, false, true);
        let acts = show(&app.update(Msg::Wayland(BackendEvent::CmdSender)));
        assert_eq!(acts, vec![format!("filter paused false px {px} outputs 0")]);
    }
}

#[test]
fn the_panel_theme_decides_about_blur() {
    let (mut app, _) = App::init(&Args::default(), Config::default(), true, true);
    output(&mut app, 50);
    assert!(app.blur_enabled());
    let mut t = PanelTheme::default();
    assert!(app.update(Msg::PanelTheme(t)).is_empty());
    t.opacity = num(0.0);
    assert_eq!(show(&app.update(Msg::PanelTheme(t))), vec!["blur 0 false"]);
    assert_eq!(show(&app.system_theme_update(false)), vec!["blur 0 false"]);
    t.opacity = num(0.5);
    app.update(Msg::PanelTheme(t));
    assert_eq!(show(&app.system_theme_update(true)), vec!["blur 0 true"]);
}

#[test]
fn players_are_controlled() {
    let mut app = started(Config::default());
    assert!(app.update(Msg::MediaControl(Control::Next)).is_empty());
    assert!(app.update(Msg::MediaRaise).is_empty());
    assert!(app.update(Msg::MediaScroll(1)).is_empty());
    app.update(Msg::Media(Some(player(None)), None));
    assert_eq!(show(&app.update(Msg::MediaControl(Control::Next))), vec!["Next bus"]);
    assert_eq!(show(&app.update(Msg::MediaRaise)), vec!["raise bus", "window app"]);
    assert_eq!(show(&app.update(Msg::MediaScroll(2))), vec!["volume bus 0.05"]);
    assert_eq!(show(&app.update(Msg::MediaScroll(-1))), vec!["volume bus -0.05"]);
    assert!(app.update(Msg::MediaScroll(0)).is_empty());
    let half = F64 { bits: 0.5f64.to_bits() };
    assert_eq!(
        show(&app.update(Msg::MediaVolume(Some(half)))),
        vec!["volume generation 1 hides after 1500"]
    );
    assert!(app.update(Msg::MediaVolume(None)).is_empty());
    assert_eq!(app.media.as_ref().unwrap().volume, Some(half));
    app.update(Msg::MediaVolume(Some(half)));
    app.update(Msg::MediaVolumeHide(1));
    assert_eq!(app.media.as_ref().unwrap().volume, Some(half));
    app.update(Msg::MediaVolumeHide(2));
    assert!(app.media.as_ref().unwrap().volume.is_none());
    app.update(Msg::MarqueeTick);
    assert_eq!(app.media.as_ref().unwrap().marquee_offset, 1);
    app.update(Msg::Media(Some(player(None)), None));
    assert_eq!(app.media.as_ref().unwrap().marquee_offset, 0);
}

#[test]
fn art_is_loaded_or_fetched() {
    let mut app = started(Config::default());
    let local = player(Some(ArtSource::Local("/a".to_string())));
    assert!(app.update(Msg::Media(Some(local), Some(4))).is_empty());
    assert_eq!(app.media.as_ref().unwrap().art, Some(4));
    let remote = || player(Some(ArtSource::Remote("http://a".to_string())));
    assert_eq!(show(&app.update(Msg::Media(Some(remote()), None))), vec!["fetch http://a"]);
    assert!(app.media.as_ref().unwrap().art_pending);
    app.update(Msg::MediaArt("http://old".to_string(), Some(5)));
    assert!(app.media.as_ref().unwrap().art_pending);
    app.update(Msg::MediaArt("http://a".to_string(), Some(6)));
    let m = app.media.as_ref().unwrap();
    assert_eq!((m.art, m.art_pending), (Some(6), false));
    app.update(Msg::Media(None, None));
    assert!(app.media.is_none());
}

#[test]
fn settings_are_stored_where_they_can_be() {
    let mut app = started(Config::default());
    assert_eq!(show(&app.update(Msg::Settings(SettingsMsg::Size(80)))), vec!["store size"]);
    assert_eq!(app.update(Msg::Settings(SettingsMsg::ResetAll)).len(), 8);
    app.store = false;
    assert!(app.update(Msg::Settings(SettingsMsg::Size(80))).is_empty());
}

#[test]
fn nothing_is_sent_without_a_backend() {
    let (mut app, _) = App::init(&Args::default(), Config::default(), false, true);
    assert!(app.update(Msg::ActivateWorkspace(1)).is_empty());
    assert!(app.update(Msg::Power(power::Event::Resumed)).is_empty());
    app.update(Msg::Wayland(BackendEvent::CmdSender));
    assert_eq!(show(&app.update(Msg::Power(power::Event::Resumed))), vec!["refresh"]);
    assert!(app.update(Msg::Ignore).is_empty());
}

#[test]
fn outputs_tell_more_of_themselves_later() {
    let mut app = started(config(Edge::Right, false, false));
    output(&mut app, 50);
    let info = OutputInfo { name: Some("HDMI".to_string()), logical_size: Some((1000, 1000)) };
    let acts = app.update(Msg::WaylandEvent(WaylandEvent::Output {
        event: OutputEvent::InfoUpdate(info),
        output: 50,
        alive: false,
    }));
    assert_eq!(
        show(&acts),
        vec!["filter paused false px 512 outputs 1", "size 0 (Some(256), Some(280))"]
    );
    assert_eq!(app.outputs[0].name, "HDMI");
    let info = OutputInfo { name: None, logical_size: None };
    let acts = app.update(Msg::WaylandEvent(WaylandEvent::Output {
        event: OutputEvent::InfoUpdate(info),
        output: 51,
        alive: false,
    }));
    assert_eq!(show(&acts), vec!["filter paused false px 512 outputs 1"]);
}

#[test]
fn surfaces_show_what_they_are_for() {
    let mut app = started(Config::default());
    output(&mut app, 50);
    assert_eq!(app.view_window(0), Content::Bar);
    assert_eq!(app.view_window(1), Content::Nothing);
    assert!(matches!(app.on_close_requested(4), Some(Msg::CloseWindow(4))));
    app.update(Msg::WaylandEvent(WaylandEvent::LayerDone(0)));
    assert_eq!(app.view_window(0), Content::Nothing);
    assert!(app.update(Msg::WaylandEvent(WaylandEvent::Other)).is_empty());
    assert!(!app.subscription().media);
}

#[test]
fn frame_events_are_not_taken_in() {
    assert!(forwards(EventKind::Output) && forwards(EventKind::Layer));
    assert!(forwards(EventKind::Popup) && forwards(EventKind::OverlapLayerAdd));
    assert!(forwards(EventKind::OverlapLayerRemove));
    assert!(!forwards(EventKind::Frame) && !forwards(EventKind::OverlapToplevel));
    assert!(!forwards(EventKind::Other));
}

#[test]
fn timers_that_the_pointer_has_overtaken_never_hide_the_bar() {
    let mut app = started(config(Edge::Left, true, true));
    output(&mut app, 50);
    assert_eq!(show(&app.update(Msg::BarExit(0))), vec!["hide 0 generation 2 after 1000"]);
    app.update(Msg::BarEnter(0));
    for _ in 0..5 {
        app.update(Msg::BarExit(0));
        assert!(app.update(Msg::HideTimeout(0, 2)).is_empty());
        app.update(Msg::BarEnter(0));
        assert!(app.update(Msg::HideTimeout(0, 2)).is_empty());
    }
    assert!(!app.layer_surfaces[0].1.hidden);
}

#[test]
fn a_strip_is_known_once() {
    let mut app = started(Config::default());
    output(&mut app, 50);
    for height in [30.0, 40.0] {
        let overlap = reserved("panel", 32, 0.0, 0.0, 1920.0, height);
        app.update(Msg::WaylandEvent(WaylandEvent::OverlapNotify { overlap, id: 1 }));
    }
    assert_eq!(app.reserved.len(), 1);
    assert_eq!(app.reserved[0].rect.height, num(40.0));
}

#[test]
fn only_bars_whose_size_has_changed_are_resized() {
    let mut app = started(config(Edge::Right, false, false));
    output(&mut app, 50);
    output(&mut app, 51);
    let mut acts = Vec::new();
    app.resize_surfaces(&mut acts);
    assert!(acts.is_empty());
    app.layer_surfaces[1].1.last_size = None;
    app.resize_surfaces(&mut acts);
    assert_eq!(acts.len(), 1);
    assert!(show(&acts)[0].starts_with("size 2 "));
    app.resize_surfaces(&mut acts);
    assert_eq!(acts.len(), 1);
}
