use cosmic_ext_workspaces_bar::backend::captures::WorkspaceInfo;
use cosmic_ext_workspaces_bar::backend::media::player::{PlaybackStatus, PlayerState};
use cosmic_ext_workspaces_bar::bar::geometry::{Thumbnail, Workspace};
use cosmic_ext_workspaces_bar::bar::model::{ContextMenu, MediaState, RenameDialog};
use cosmic_ext_workspaces_bar::config::{
    Clip, Config, Edge, MediaPosition, PanelBackground, PanelTheme, Rgb, Rgba,
};
use cosmic_ext_workspaces_bar::content::{
    bar_background, bar_radii, bar_view, label_color, marquee_display, media_controls,
    media_placeholder, menu_view, panel_bg_color, preview_size, rename_view,
    tooltip_if_truncated, volume_indicator, workspace_item, workspace_item_appearance, ArtView,
    Item, ItemTheme, MenuEntry, Overrides, Radii, ThemeColors,
};
use cosmic_ext_workspaces_bar::float::double::F64;
use cosmic_ext_workspaces_bar::float::single::F32;
use cosmic_ext_workspaces_bar::settings::{
    clip_at, clip_index, clip_label, default_item_radius, edge_at, edge_index, edge_label,
    is_commit, media_position_at, media_position_index, media_position_label, picker_colors,
    sync_picker, update, view, ActivePickers, PickerUpdate, SettingsMsg, Start, Write,
};

fn num(x: f32) -> F32 {
    F32 { bits: x.to_bits() }
}

fn back(x: F32) -> f32 {
    f32::from_bits(x.bits)
}

fn rgba(r: f32, g: f32, b: f32, a: f32) -> Rgba {
    Rgba { r: num(r), g: num(g), b: num(b), a: num(a) }
}

fn show(list: Vec<Write>) -> Vec<String> {
    list.iter()
        .map(|w| {
            let value = match w {
                Write::Edge(v) => format!("{v:?}"),
                Write::Size(v) => format!("{v}"),
                Write::Fill(v)
                | Write::Autohide(v)
                | Write::RoundEdgeCorners(v)
                | Write::MediaEnabled(v)
                | Write::MediaVolumeScroll(v) => format!("{v}"),
                Write::Clip(v) => format!("{v:?}"),
                Write::MediaPosition(v) => format!("{v:?}"),
                Write::PreferredPlayer(v) => v.clone(),
                Write::BgColor(v) | Write::HoverColor(v) => {
                    format!("{:?}", v.map(|c| (back(c.r), back(c.g), back(c.b), back(c.a))))
                }
                Write::Blur(v) => format!("{v:?}"),
                Write::BarRadius(v) | Write::ItemRadius(v) => format!("{v:?}"),
                Write::ActiveBorderColor(v) | Write::TextColor(v) => {
                    format!("{:?}", v.map(|c| (back(c.r), back(c.g), back(c.b))))
                }
                Write::ActiveBorderWidth(v) => format!("{:?}", v.map(back)),
            };
            format!("{}={}", w.key(), value)
        })
        .collect()
}

fn written(msg: SettingsMsg) -> Vec<String> {
    show(update(msg, true, 12))
}

#[test]
fn lists_and_places_go_together() {
    for e in [Edge::Top, Edge::Bottom, Edge::Left, Edge::Right] {
        assert_eq!(edge_at(edge_index(e)), Some(e));
    }
    for c in [Clip::OwnBar, Clip::AllBars, Clip::Nothing] {
        assert_eq!(clip_at(clip_index(c)), Some(c));
    }
    for p in [MediaPosition::Start, MediaPosition::End] {
        assert_eq!(media_position_at(media_position_index(p)), Some(p));
    }
    assert_eq!(edge_at(4), None);
    assert_eq!(clip_at(3), None);
    assert_eq!(media_position_at(2), None);
    assert_eq!(edge_label(Edge::Bottom), "Bottom");
    assert_eq!(clip_label(Clip::Nothing), "Nothing");
    assert_eq!(clip_label(Clip::OwnBar), "This bar");
    assert_eq!(media_position_label(MediaPosition::End), "End");
}

#[test]
fn settings_write_their_entries() {
    assert_eq!(written(SettingsMsg::Edge(2)), vec!["edge=Left"]);
    assert!(written(SettingsMsg::Edge(9)).is_empty());
    assert_eq!(written(SettingsMsg::Size(80)), vec!["size=80"]);
    assert_eq!(written(SettingsMsg::Fill(false)), vec!["fill=false"]);
    assert_eq!(written(SettingsMsg::Autohide(true)), vec!["autohide=true"]);
    assert_eq!(written(SettingsMsg::Clip(1)), vec!["clip=AllBars"]);
    assert!(written(SettingsMsg::Clip(3)).is_empty());
    assert_eq!(written(SettingsMsg::RoundEdgeCorners(true)), vec!["round_edge_corners=true"]);
    assert_eq!(written(SettingsMsg::MediaEnabled(true)), vec!["media_enabled=true"]);
    assert_eq!(written(SettingsMsg::MediaPosition(1)), vec!["media_position=End"]);
    assert!(written(SettingsMsg::MediaPosition(2)).is_empty());
    assert_eq!(
        written(SettingsMsg::PreferredPlayer("vlc".to_string())),
        vec!["preferred_player=vlc"]
    );
    assert_eq!(written(SettingsMsg::MediaVolumeScroll(false)), vec!["media_volume_scroll=false"]);
    assert_eq!(written(SettingsMsg::Blur(false)), vec!["blur=Some(false)"]);
    assert_eq!(written(SettingsMsg::BarRadius(3)), vec!["bar_radius=Some(3)"]);
    assert_eq!(written(SettingsMsg::ItemRadius(3)), vec!["item_radius=Some(3)"]);
    assert_eq!(written(SettingsMsg::ActiveBorderWidth(3)), vec!["active_border_width=Some(3.0)"]);
}

#[test]
fn overrides_start_from_what_is_shown() {
    let shown = rgba(0.25, 0.5, 0.75, 1.0);
    let start = Start { applied: None, shown };
    let applied = Start { applied: Some(rgba(1.0, 0.0, 0.0, 0.5)), shown };
    assert_eq!(
        written(SettingsMsg::OverrideBg(true, start)),
        vec!["bg_color=Some((0.25, 0.5, 0.75, 1.0))"]
    );
    assert_eq!(
        written(SettingsMsg::OverrideBg(true, applied)),
        vec!["bg_color=Some((1.0, 0.0, 0.0, 0.5))"]
    );
    assert_eq!(written(SettingsMsg::OverrideBg(false, applied)), vec!["bg_color=None"]);
    assert_eq!(written(SettingsMsg::OverrideBlur(true)), vec!["blur=Some(true)"]);
    assert_eq!(written(SettingsMsg::OverrideBlur(false)), vec!["blur=None"]);
    assert_eq!(written(SettingsMsg::OverrideBarRadius(true)), vec!["bar_radius=Some(12)"]);
    assert_eq!(written(SettingsMsg::OverrideBarRadius(false)), vec!["bar_radius=None"]);
    assert_eq!(
        written(SettingsMsg::OverrideActiveBorderColor(true, start)),
        vec!["active_border_color=Some((0.25, 0.5, 0.75))"]
    );
    assert_eq!(
        written(SettingsMsg::OverrideActiveBorderWidth(true)),
        vec!["active_border_width=Some(4.0)"]
    );
    assert_eq!(
        written(SettingsMsg::OverrideHover(true, start)),
        vec!["hover_color=Some((0.25, 0.5, 0.75, 1.0))"]
    );
    assert_eq!(
        written(SettingsMsg::OverrideItemRadius(true, num(8.0))),
        vec!["item_radius=Some(12)"]
    );
    assert_eq!(
        written(SettingsMsg::OverrideItemRadius(true, num(2.0))),
        vec!["item_radius=Some(2)"]
    );
    assert_eq!(written(SettingsMsg::OverrideItemRadius(false, num(2.0))), vec!["item_radius=None"]);
    assert_eq!(
        written(SettingsMsg::OverrideText(true, start)),
        vec!["text_color=Some((0.25, 0.5, 0.75))"]
    );
}

#[test]
fn pickers_store_their_color_when_done() {
    let c = Some(rgba(0.0, 1.0, 0.0, 1.0));
    for u in [PickerUpdate::AppliedColor, PickerUpdate::ActionFinished, PickerUpdate::Reset] {
        assert!(is_commit(u));
        assert_eq!(
            written(SettingsMsg::BgPicker(u, c)),
            vec!["bg_color=Some((0.0, 1.0, 0.0, 1.0))"]
        );
    }
    assert!(!is_commit(PickerUpdate::Other));
    assert!(written(SettingsMsg::BgPicker(PickerUpdate::Other, c)).is_empty());
    assert!(written(SettingsMsg::TextPicker(PickerUpdate::Reset, None)).is_empty());
    assert_eq!(
        written(SettingsMsg::TextPicker(PickerUpdate::Reset, c)),
        vec!["text_color=Some((0.0, 1.0, 0.0))"]
    );
    assert_eq!(
        written(SettingsMsg::ActiveBorderPicker(PickerUpdate::Reset, c)),
        vec!["active_border_color=Some((0.0, 1.0, 0.0))"]
    );
    assert_eq!(
        written(SettingsMsg::HoverPicker(PickerUpdate::Reset, c)),
        vec!["hover_color=Some((0.0, 1.0, 0.0, 1.0))"]
    );
}

#[test]
fn resetting_takes_back_all_overrides() {
    assert_eq!(
        written(SettingsMsg::ResetAll),
        vec![
            "bg_color=None",
            "blur=None",
            "bar_radius=None",
            "active_border_color=None",
            "active_border_width=None",
            "hover_color=None",
            "item_radius=None",
            "text_color=None",
        ]
    );
}

#[test]
fn idle_pickers_follow_the_configuration() {
    let red = Some(rgba(1.0, 0.0, 0.0, 1.0));
    assert!(sync_picker(false, None, red));
    assert!(sync_picker(false, red, None));
    assert!(!sync_picker(false, red, red));
    assert!(!sync_picker(true, None, red));
    let mut c = Config::default();
    c.text_color = Some(Rgb { r: num(0.5), g: num(0.0), b: num(0.0) });
    let colors = picker_colors(&c);
    assert!(colors.0.is_none() && colors.1.is_none() && colors.2.is_none());
    assert_eq!(colors.3, Some(rgba(0.5, 0.0, 0.0, 1.0)));
}

#[test]
fn the_settings_window_shows_the_configuration() {
    let mut c = Config::default();
    let idle = ActivePickers { bg: true, active_border: false, hover: false, text: false };
    let v = view(&c, &idle);
    assert_eq!((v.edge, v.clip), (3, 0));
    assert_eq!((v.size.low, v.size.value, v.size.high), (64, 256, 512));
    assert_eq!(v.size_label, "256 px");
    assert!(v.media.is_none() && !v.bg.custom && !v.bg.picker);
    assert_eq!((v.bar_radius.value, v.item_radius.value), (0, 8));
    assert_eq!((v.active_border_width.value, v.active_border_width.high), (4, 16));
    c.media_enabled = true;
    c.preferred_player = "vlc".to_string();
    c.bg_color = Some(rgba(0.0, 0.0, 0.0, 1.0));
    c.active_border_width = Some(num(7.9));
    c.item_radius = Some(30);
    let v = view(&c, &idle);
    assert!(v.bg.custom && v.bg.picker);
    assert_eq!(v.active_border_width.value, 7);
    assert_eq!(v.item_radius.value, 30);
    let media = v.media.unwrap();
    assert_eq!(media.position, 0);
    assert_eq!(media.preferred_player, "vlc");
    assert!(media.volume_scroll);
}

fn workspace(handle: u64, outputs: Vec<u64>) -> Workspace {
    Workspace {
        info: WorkspaceInfo {
            handle,
            name: format!("ws{handle}"),
            coordinates: Vec::new(),
            active: handle == 1,
            can_activate: handle != 2,
            cosmic_handle: true,
            cosmic_rename: handle == 1,
        },
        img: None,
        outputs,
    }
}

#[test]
fn bars_show_the_workspaces_of_their_output() {
    let list = vec![workspace(1, vec![5]), workspace(2, vec![6]), workspace(3, vec![6, 5])];
    let mut c = Config::default();
    assert_eq!(bar_view(&c, &list, 5), vec![Item::Workspace(0), Item::Workspace(2)]);
    assert!(bar_view(&c, &list, 7).is_empty());
    c.media_enabled = true;
    assert_eq!(bar_view(&c, &list, 6), vec![Item::Media, Item::Workspace(1), Item::Workspace(2)]);
    c.media_position = MediaPosition::End;
    assert_eq!(bar_view(&c, &list, 6), vec![Item::Workspace(1), Item::Workspace(2), Item::Media]);
}

#[test]
fn corners_at_the_screen_edge_can_be_square() {
    let corners = |r: Radii| (back(r.top_left), back(r.top_right), back(r.bottom_right), back(r.bottom_left));
    assert_eq!(corners(bar_radii(None, 8, true, Edge::Left)), (8.0, 8.0, 8.0, 8.0));
    assert_eq!(corners(bar_radii(Some(3), 8, false, Edge::Left)), (0.0, 3.0, 3.0, 0.0));
    assert_eq!(corners(bar_radii(Some(3), 8, false, Edge::Right)), (3.0, 0.0, 0.0, 3.0));
    assert_eq!(corners(bar_radii(Some(3), 8, false, Edge::Top)), (0.0, 0.0, 3.0, 3.0));
    assert_eq!(corners(bar_radii(Some(3), 8, false, Edge::Bottom)), (3.0, 3.0, 0.0, 0.0));
}

fn theme(frosted: bool) -> ThemeColors {
    ThemeColors {
        background: rgba(0.1, 0.1, 0.1, 1.0),
        dark: rgba(0.0, 0.0, 0.0, 1.0),
        light: rgba(1.0, 1.0, 1.0, 1.0),
        frosted,
        blurred_alpha: num(0.5),
    }
}

#[test]
fn backgrounds_follow_the_panel() {
    let mut panel = PanelTheme::default();
    panel.opacity = num(0.8);
    assert_eq!(panel_bg_color(&theme(false), &panel), rgba(0.1, 0.1, 0.1, 0.8));
    assert_eq!(panel_bg_color(&theme(true), &panel), rgba(0.1, 0.1, 0.1, 0.8 * 0.5));
    panel.background = PanelBackground::Dark;
    assert_eq!(panel_bg_color(&theme(false), &panel), rgba(0.0, 0.0, 0.0, 0.8));
    panel.background = PanelBackground::Light;
    assert_eq!(panel_bg_color(&theme(false), &panel), rgba(1.0, 1.0, 1.0, 0.8));
    panel.background = PanelBackground::Color(Rgb { r: num(0.3), g: num(0.2), b: num(0.1) });
    assert_eq!(panel_bg_color(&theme(false), &panel), rgba(0.3, 0.2, 0.1, 0.8));
    let mut c = Config::default();
    assert_eq!(
        bar_background(&Overrides::from(&c), &theme(false), &panel),
        rgba(0.3, 0.2, 0.1, 0.8)
    );
    c.bg_color = Some(rgba(0.9, 0.9, 0.9, 0.1));
    assert_eq!(
        bar_background(&Overrides::from(&c), &theme(false), &panel),
        rgba(0.9, 0.9, 0.9, 0.1)
    );
}

#[test]
fn active_and_hovered_items_stand_out() {
    let radii = Radii { top_left: num(2.0), top_right: num(4.0), bottom_right: num(8.0), bottom_left: num(0.0) };
    let t = ItemTheme { radii, accent: rgba(0.0, 0.0, 1.0, 1.0), button: rgba(0.5, 0.5, 0.5, 1.0) };
    let mut c = Config::default();
    let look = workspace_item_appearance(&t, true, false, &Overrides::from(&c));
    assert_eq!(back(look.radii.top_left), 2.0);
    assert_eq!(back(look.radii.top_right), 8.0);
    assert_eq!(back(look.radii.bottom_right), 12.0);
    assert_eq!(look.border.map(|(w, c)| (back(w), c)), Some((4.0, t.accent)));
    assert!(look.background.is_none());
    let look = workspace_item_appearance(&t, false, true, &Overrides::from(&c));
    assert!(look.border.is_none());
    assert_eq!(look.background, Some(t.button));
    c.item_radius = Some(5);
    c.active_border_width = Some(num(1.5));
    c.active_border_color = Some(Rgb { r: num(1.0), g: num(0.0), b: num(0.0) });
    c.hover_color = Some(rgba(0.0, 1.0, 0.0, 0.5));
    c.text_color = Some(Rgb { r: num(0.0), g: num(0.0), b: num(0.0) });
    let ov = Overrides::from(&c);
    let look = workspace_item_appearance(&t, true, true, &ov);
    assert_eq!(back(look.radii.bottom_left), 5.0);
    assert_eq!(look.border.map(|(w, c)| (back(w), c)), Some((1.5, rgba(1.0, 0.0, 0.0, 1.0))));
    assert_eq!(look.background, c.hover_color);
    assert_eq!(label_color(&ov), Some(rgba(0.0, 0.0, 0.0, 1.0)));
    assert_eq!(label_color(&Overrides::from(&Config::default())), None);
    assert_eq!(back(default_item_radius(num(3.5))), 3.5);
}

#[test]
fn previews_keep_the_shape_of_the_image() {
    let t = num(232.0);
    let (w, h) = preview_size(Some((512, 288)), Edge::Right, t);
    assert_eq!((back(w), back(h)), (232.0, 232.0 / (512.0 / 288.0)));
    let (w, h) = preview_size(Some((512, 0)), Edge::Top, t);
    assert_eq!((back(w), back(h)), (232.0 * 512.0, 232.0));
    let (w, h) = preview_size(None, Edge::Left, t);
    assert_eq!((back(w), back(h)), (232.0, 232.0 * 9.0 / 16.0));
    let (w, h) = preview_size(None, Edge::Bottom, t);
    assert_eq!((back(w), back(h)), (232.0 * 16.0 / 9.0, 232.0));
}

#[test]
fn items_offer_what_their_workspace_allows() {
    let mut w = workspace(1, vec![5]);
    w.img = Some(Thumbnail { width: 4, height: 2, image: 77 });
    let item = workspace_item(&w, Edge::Right, num(10.0));
    assert_eq!(item.image, Some(77));
    assert_eq!((back(item.width), back(item.height)), (10.0, 5.0));
    assert!(item.selected);
    assert_eq!(item.on_press, Some(1));
    assert_eq!(item.menu, Some((1, "ws1".to_string())));
    let item = workspace_item(&workspace(2, vec![5]), Edge::Right, num(16.0));
    assert!(item.image.is_none() && !item.selected);
    assert!(item.on_press.is_none() && item.menu.is_none());
}

#[test]
fn long_texts_move_on_and_come_round() {
    assert_eq!(marquee_display("short", 99), "short");
    let exact = "abcdefghijklmnopqrstuv";
    assert_eq!(marquee_display(exact, 5), exact);
    assert!(tooltip_if_truncated(exact).is_none());
    let long = "abcdefghijklmnopqrstuvwxyz";
    assert_eq!(tooltip_if_truncated(long), Some(long.to_string()));
    assert_eq!(marquee_display(long, 0), "abcdefghijklmnopqrstuv");
    assert_eq!(marquee_display(long, 10), "klmnopqrstuvwxyz   abc");
    assert_eq!(marquee_display(long, 27), "  abcdefghijklmnopqrst");
    assert_eq!(marquee_display(long, 29 + 10), marquee_display(long, 10));
    assert_eq!(marquee_display(long, usize::MAX).chars().count(), 22);
    let wide = "\u{e4}\u{f6}\u{fc}defghijklmnopqrstuvwxyz";
    assert_eq!(marquee_display(wide, 1).chars().next(), Some('\u{f6}'));
}

#[test]
fn volume_is_shown_in_per_cent() {
    let show = |v: f64| volume_indicator(F64 { bits: v.to_bits() }, num(100.0));
    assert_eq!(show(0.5).label, "50%");
    assert_eq!(show(0.554).label, "55%");
    assert_eq!(show(0.555).label, "56%");
    assert_eq!(show(1.7).label, "100%");
    assert_eq!(show(-3.0).label, "0%");
    assert_eq!((show(0.0).filled, show(0.0).rest), (1, 99));
    assert_eq!((show(1.0).filled, show(1.0).rest), (100, 0));
    assert_eq!(show(f64::NAN).label, "0%");
    assert_eq!(back(show(0.5).width), 68.0);
}

fn media() -> MediaState {
    MediaState {
        info: PlayerState {
            bus_name: "b".to_string(),
            status: PlaybackStatus::Playing,
            title: String::new(),
            artist: "Artist".to_string(),
            art: None,
            desktop_entry: "app".to_string(),
            can_raise: true,
            can_go_next: true,
            can_go_previous: false,
            can_play_pause: true,
        },
        art: None,
        art_pending: true,
        marquee_offset: 0,
        volume: Some(F64 { bits: 0.25f64.to_bits() }),
    }
}

#[test]
fn media_controls_show_the_player() {
    let mut m = media();
    let c = media_controls(&Some(m), true, num(50.0)).unwrap();
    assert_eq!(c.art, ArtView::Loading);
    assert_eq!(c.art.icon(), Some("content-loading-symbolic"));
    assert_eq!((c.title.as_str(), c.artist.as_str()), ("Not playing", "Artist"));
    assert_eq!(c.volume.map(|v| v.label), Some("25%".to_string()));
    assert_eq!(c.play_icon, "media-playback-pause-symbolic");
    assert!(c.can_go_next && !c.can_go_previous && c.can_play_pause && c.raises && c.scrolls);
    m = media();
    m.art = Some(3);
    m.volume = None;
    m.info.status = PlaybackStatus::Paused;
    m.info.title = "A title that is longer than the block".to_string();
    let c = media_controls(&Some(m), false, num(50.0)).unwrap();
    assert_eq!(c.art, ArtView::Picture(3));
    assert_eq!(c.art.icon(), None);
    assert_eq!(c.title, "A title that is longer");
    assert!(c.title_tooltip.is_some() && c.artist_tooltip.is_none());
    assert_eq!(c.play_icon, "media-playback-start-symbolic");
    assert!(c.volume.is_none() && !c.scrolls);
    m = media();
    m.art_pending = false;
    let c = media_controls(&Some(m), false, num(50.0)).unwrap();
    assert_eq!(c.art.icon(), Some("folder-music-symbolic"));
    assert!(media_controls(&None, true, num(50.0)).is_none());
    let p = media_placeholder();
    assert_eq!(p.title, "Not playing");
    assert!(!p.can_go_next && !p.can_go_previous && !p.can_play_pause && !p.raises);
}

#[test]
fn menus_about_workspaces_offer_renaming() {
    let menu = |workspace| Some(ContextMenu { id: 1, workspace });
    assert_eq!(
        menu_view(&menu(Some((2, "a".to_string())))),
        vec![MenuEntry::Rename, MenuEntry::Divider, MenuEntry::Settings]
    );
    assert_eq!(menu_view(&menu(None)), vec![MenuEntry::Settings]);
    assert_eq!(menu_view(&None), vec![MenuEntry::Settings]);
    let dialog = RenameDialog { id: 1, workspace: 2, value: "abc".to_string() };
    assert_eq!(rename_view(&Some(dialog)), "abc");
    assert_eq!(rename_view(&None), "");
}

#[test]
fn items_with_overrides_ignore_the_theme() {
    let mut c = Config::default();
    c.item_radius = Some(6);
    c.active_border_color = Some(Rgb { r: num(1.0), g: num(0.5), b: num(0.0) });
    c.hover_color = Some(Rgba { r: num(0.1), g: num(0.2), b: num(0.3), a: num(0.4) });
    let ov = Overrides::from(&c);
    let theme = |x: f32| {
        let r = num(x);
        let color = Rgba { r, g: r, b: r, a: r };
        let radii = Radii { top_left: r, top_right: r, bottom_right: r, bottom_left: r };
        ItemTheme { radii, accent: color, button: color }
    };
    for (active, hovered) in [(false, false), (true, false), (false, true), (true, true)] {
        let a = workspace_item_appearance(&theme(0.0), active, hovered, &ov);
        let b = workspace_item_appearance(&theme(9.0), active, hovered, &ov);
        assert_eq!(a.radii, b.radii);
        assert_eq!(a.border, b.border);
        assert_eq!(a.background, b.background);
        assert_eq!(a.radii.top_left, num(6.0));
        assert_eq!(a.border.is_some(), active);
        assert_eq!(a.background.is_some(), hovered);
    }
}
