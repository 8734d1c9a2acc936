use cosmic_ext_workspaces_bar::config::{
    blur_enabled, load, Anchor, Clip, Config, Edge, MediaPosition, PanelBackground, PanelTheme,
    Rgb, Rgba, Stored,
};
use cosmic_ext_workspaces_bar::float::single::F32;
use cosmic_ext_workspaces_bar::view::{bar_length, media_block_length, preview_thickness};

fn num(x: f32) -> F32 {
    F32 { bits: x.to_bits() }
}

fn edges() -> Vec<Edge> {
    vec![Edge::Top, Edge::Bottom, Edge::Left, Edge::Right]
}

fn native_thickness(size: u32, edge: Edge) -> f32 {
    let mut t = size as f32 - 2.0 * (8.0 + 4.0);
    if !edge.is_vertical() {
        t -= 20.0 + 4.0;
    }
    t.max(32.0)
}

#[test]
fn defaults_are_those_of_a_fresh_installation() {
    let c = Config::default();
    assert_eq!(c.size, 256);
    assert_eq!(c.edge, Edge::Right);
    assert!(c.fill);
    assert!(!c.autohide);
    assert!(c.round_edge_corners);
    assert_eq!(c.clip, Clip::OwnBar);
    assert!(!c.media_enabled);
    assert_eq!(c.media_position, MediaPosition::Start);
    assert!(c.bg_color.is_none() && c.blur.is_none() && c.bar_radius.is_none());
    assert!(c.active_border_color.is_none() && c.active_border_width.is_none());
    assert!(c.hover_color.is_none() && c.item_radius.is_none() && c.text_color.is_none());
    assert_eq!(Edge::default(), Edge::Right);
    assert_eq!(Clip::default(), Clip::OwnBar);
    assert_eq!(MediaPosition::default(), MediaPosition::Start);
    let t = PanelTheme::default();
    assert_eq!(t.background, PanelBackground::ThemeDefault);
    assert_eq!(t.opacity.bits, 1f32.to_bits());
    assert_eq!(t.border_radius, 0);
}

#[test]
fn edges_tell_their_anchors() {
    for e in edges() {
        assert_eq!(e.is_vertical(), e == Edge::Left || e == Edge::Right);
        let a = e.anchor();
        assert_eq!(a.top, e != Edge::Bottom);
        assert_eq!(a.bottom, e != Edge::Top);
        assert_eq!(a.left, e != Edge::Right);
        assert_eq!(a.right, e != Edge::Left);
    }
    assert_eq!(
        Edge::Left.solo_anchor(),
        Anchor { top: false, bottom: false, left: true, right: false }
    );
    assert_eq!(Edge::Left.layer_size(70), Some((Some(70), None)));
    assert_eq!(Edge::Top.layer_size(70), Some((None, Some(70))));
}

#[test]
fn stored_configuration_is_used_where_there_is_one() {
    let mut c = Config::default();
    c.size = 99;
    assert!(load(Stored::Complete(c.clone())).equals(&c));
    assert!(load(Stored::Partial(c.clone())).equals(&c));
    assert!(load(Stored::Unavailable).equals(&Config::default()));
    assert!(!c.equals(&Config::default()));
}

#[test]
fn colors_compare_as_numbers() {
    let mut a = Config::default();
    let mut b = Config::default();
    a.text_color = Some(Rgb { r: num(0.0), g: num(0.5), b: num(1.0) });
    b.text_color = Some(Rgb { r: num(-0.0), g: num(0.5), b: num(1.0) });
    assert!(a.equals(&b));
    b.text_color = Some(Rgb { r: num(f32::NAN), g: num(0.5), b: num(1.0) });
    assert!(!b.equals(&b));
    a.text_color = None;
    a.bg_color = Some(Rgba { r: num(0.1), g: num(0.2), b: num(0.3), a: num(1.0) });
    assert!(!a.equals(&Config::default()));
    a.preferred_player = "vlc".to_string();
    assert!(!a.equals(&b));
}

#[test]
fn panel_themes_compare_as_numbers() {
    let a = PanelTheme::default();
    let mut b = PanelTheme::default();
    assert!(a.equals(&b));
    b.background = PanelBackground::Color(Rgb { r: num(0.0), g: num(0.0), b: num(0.0) });
    assert!(!a.equals(&b));
    b = PanelTheme::default();
    b.opacity = num(0.5);
    assert!(!a.equals(&b));
}

#[test]
fn blur_follows_the_panel_unless_overridden() {
    assert!(blur_enabled(None, true, num(0.8)));
    assert!(!blur_enabled(None, false, num(0.8)));
    assert!(!blur_enabled(None, true, num(0.001)));
    assert!(!blur_enabled(None, true, num(0.0)));
    assert!(blur_enabled(Some(true), false, num(0.0)));
    assert!(!blur_enabled(Some(false), true, num(1.0)));
}

#[test]
fn preview_thickness_leaves_room_for_padding_and_caption() {
    assert_eq!(preview_thickness(256, Edge::Right).to_u32(), 232);
    assert_eq!(preview_thickness(256, Edge::Top).to_u32(), 208);
    assert_eq!(preview_thickness(40, Edge::Left).to_u32(), 32);
    for size in [0, 1, 55, 56, 57, 64, 512, 16_777_217, u32::MAX] {
        for e in edges() {
            assert_eq!(preview_thickness(size, e).bits, native_thickness(size, e).to_bits());
        }
    }
}

#[test]
fn bar_length_fits_the_items() {
    for size in [64u32, 100, 256, 511, 4_000_000] {
        for e in edges() {
            for n in [0usize, 1, 3, 10] {
                for aspect in [16.0f32 / 9.0, 1.0, 0.4, 0.0, f32::NAN] {
                    let k = n.max(1) as f32;
                    let t = native_thickness(size, e);
                    let item = if e.is_vertical() {
                        t / aspect + 4.0 + 20.0 + 2.0 * 4.0
                    } else {
                        t * aspect + 2.0 * 4.0
                    };
                    let want = (k * item + (k - 1.0) * 8.0 + 2.0 * 8.0).ceil() as u32;
                    assert_eq!(bar_length(size, e, n, num(aspect)), want);
                }
            }
        }
    }
    assert_eq!(bar_length(256, Edge::Right, 1, num(1.0)), 232 + 32 + 16);
}

#[test]
fn media_block_takes_a_known_length() {
    assert_eq!(media_block_length(256, Edge::Right), 232 + 40 + 28 + 12);
    assert_eq!(media_block_length(256, Edge::Bottom), 208 + 8);
    assert_eq!(media_block_length(10, Edge::Left), 32 + 40 + 28 + 12);
}
