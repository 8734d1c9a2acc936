//! What the surfaces show.

use crate::backend::media::player::PlaybackStatus;
use crate::bar::geometry::Workspace;
use crate::bar::model::{ContextMenu, MediaState, RenameDialog};
use crate::backend::strips::has_number;
use crate::config::{Config, Edge, MediaPosition, PanelBackground, PanelTheme, Rgb, Rgba};
use crate::float::bounds::{
    double_order, fractions_do_not_enlarge, lemma_near_back, lemma_near_chain,
    lemma_near_scaled, moderate, moderate_products_are_near, moderate_quotients_are_near, near, one_is_neutral,
    scaling_is_near, unscaling_is_near, whole_doubles_are_exact, whole_numbers_are_moderate,
};
use crate::float::double::F64;
use crate::float::magnitude;
use crate::float::nearest::{apart, rounding_error_is_small, rounding_keeps_order};
use crate::float::rounding;
use crate::float::single;
use crate::float::single::F32;
use crate::float::whole;
use crate::settings;
use crate::settings::{default_item_radius, rgb};
use crate::text;
use vstd::prelude::*;

verus! {

/// Longer texts of the media block move on as a marquee.
pub const MEDIA_TEXT_MAX_CHARS: usize = 22;

/// Theme overrides, for use in styles.
#[derive(Clone, Copy)]
pub struct Overrides {
    pub bg_color: Option<Rgba>,
    pub bar_radius: Option<u32>,
    pub active_border_color: Option<Rgb>,
    pub active_border_width: Option<F32>,
    pub hover_color: Option<Rgba>,
    pub item_radius: Option<u32>,
    pub text_color: Option<Rgb>,
}

impl<'a> From<&'a Config> for Overrides {
    fn from(c: &'a Config) -> (o: Overrides) {
        Overrides {
            bg_color: c.bg_color,
            bar_radius: c.bar_radius,
            active_border_color: c.active_border_color,
            active_border_width: c.active_border_width,
            hover_color: c.hover_color,
            item_radius: c.item_radius,
            text_color: c.text_color,
        }
    }
}

impl<'a> vstd::std_specs::convert::FromSpecImpl<&'a Config> for Overrides {
    open spec fn obeys_from_spec() -> bool {
        true
    }

    open spec fn from_spec(c: &'a Config) -> Overrides {
        Overrides {
            bg_color: c.bg_color,
            bar_radius: c.bar_radius,
            active_border_color: c.active_border_color,
            active_border_width: c.active_border_width,
            hover_color: c.hover_color,
            item_radius: c.item_radius,
            text_color: c.text_color,
        }
    }
}

/// Something that stands along the bar.
#[derive(Clone, Copy, Debug, PartialEq, Eq, Structural)]
pub enum Item {
    /// The workspace at this place of the list.
    Workspace(usize),
    /// The media block.
    Media,
}

/// The workspaces of an output, by their places.
pub open spec fn workspace_items(workspaces: Seq<Workspace>, output: u64) -> Seq<Item>
    decreases workspaces.len(),
{
    if workspaces.len() == 0 {
        Seq::empty()
    } else {
        let rest = workspace_items(workspaces.drop_last(), output);
        if workspaces.last().on(output) {
            rest.push(Item::Workspace((workspaces.len() - 1) as usize))
        } else {
            rest
        }
    }
}

/// What stands along the bar of an output: its workspaces, and the media block
/// at either end if it is wanted.
pub open spec fn items_on(
    workspaces: Seq<Workspace>,
    output: u64,
    media: bool,
    position: MediaPosition,
) -> Seq<Item> {
    let items = workspace_items(workspaces, output);
    if media {
        match position {
            MediaPosition::Start => seq![Item::Media] + items,
            MediaPosition::End => items.push(Item::Media),
        }
    } else {
        items
    }
}

/// What stands along the bar of an output, in order.
pub fn bar_view(config: &Config, workspaces: &Vec<Workspace>, output: u64) -> (items: Vec<Item>)
    ensures
        items@ == items_on(workspaces@, output, config.media_enabled, config.media_position),
{
    let mut items: Vec<Item> = Vec::new();
    let mut i: usize = 0;
    assert(workspaces@.take(0) =~= Seq::empty());
    while i < workspaces.len()
        invariant
            i <= workspaces.len(),
            items@ == workspace_items(workspaces@.take(i as int), output),
        decreases workspaces.len() - i,
    {
        assert(workspaces@.take(i + 1).drop_last() =~= workspaces@.take(i as int));
        if has_number(&workspaces[i].outputs, output) {
            items.push(Item::Workspace(i));
        }
        i = i + 1;
    }
    assert(workspaces@.take(workspaces@.len() as int) =~= workspaces@);
    if config.media_enabled {
        match config.media_position {
            MediaPosition::Start => {
                let ghost rest = items@;
                items.insert(0, Item::Media);
                assert(items@ =~= seq![Item::Media] + rest);
            },
            MediaPosition::End => {
                items.push(Item::Media);
            },
        }
    }
    items
}

/// Radii of the four corners of a rectangle.
#[derive(Clone, Copy, Debug, PartialEq, Eq, Structural)]
pub struct Radii {
    pub top_left: F32,
    pub top_right: F32,
    pub bottom_right: F32,
    pub bottom_left: F32,
}

/// The radius of a corner that may be kept square.
pub open spec fn corner(square: bool, r: F32) -> F32 {
    if square {
        F32::of_int(0)
    } else {
        r
    }
}

/// The corners of the bar. Those at the screen edge are square unless they are
/// to be round too.
pub fn bar_radii(
    override_radius: Option<u32>,
    panel_radius: u32,
    round_edge: bool,
    edge: Edge,
) -> (radii: Radii)
    ensures
        ({
            let r = F32::of_int(
                match override_radius {
                    Some(r) => r as int,
                    None => panel_radius as int,
                },
            );
            &&& radii.top_left == corner(!round_edge && (edge is Top || edge is Left), r)
            &&& radii.top_right == corner(!round_edge && (edge is Top || edge is Right), r)
            &&& radii.bottom_left == corner(!round_edge && (edge is Bottom || edge is Left), r)
            &&& radii.bottom_right == corner(!round_edge && (edge is Bottom || edge is Right), r)
        }),
{
    let n: u32 = match override_radius {
        Some(r) => r,
        None => panel_radius,
    };
    let r: F32 = F32::from_u64(n as u64);
    let zero: F32 = F32::from_u64(0);
    let mut radii: Radii = Radii { top_left: r, top_right: r, bottom_right: r, bottom_left: r };
    if !round_edge {
        match edge {
            Edge::Top => {
                radii.top_left = zero;
                radii.top_right = zero;
            },
            Edge::Bottom => {
                radii.bottom_left = zero;
                radii.bottom_right = zero;
            },
            Edge::Left => {
                radii.top_left = zero;
                radii.bottom_left = zero;
            },
            Edge::Right => {
                radii.top_right = zero;
                radii.bottom_right = zero;
            },
        }
    }
    radii
}

/// The colors of the desktop theme that backgrounds are made of.
#[derive(Clone, Copy)]
pub struct ThemeColors {
    /// Background of the theme in use.
    pub background: Rgba,
    /// Background of the dark and the light default theme.
    pub dark: Rgba,
    pub light: Rgba,
    /// Panels are frosted glass.
    pub frosted: bool,
    /// How much of its opacity frosted glass keeps.
    pub blurred_alpha: F32,
}

/// The background of the panel: its color, as opaque as the panel is. Frosted
/// glass is less opaque and relies on blur.
pub open spec fn panel_color(theme: ThemeColors, panel: PanelTheme) -> Rgba {
    let base = match panel.background {
        PanelBackground::ThemeDefault => theme.background,
        PanelBackground::Dark => theme.dark,
        PanelBackground::Light => theme.light,
        PanelBackground::Color(c) => settings::opaque(c),
    };
    Rgba {
        a: if theme.frosted {
            panel.opacity.product(theme.blurred_alpha)
        } else {
            panel.opacity
        },
        ..base
    }
}

/// The background that follows the panel's appearance.
pub fn panel_bg_color(theme: &ThemeColors, panel: &PanelTheme) -> (c: Rgba)
    ensures
        c == panel_color(*theme, *panel),
{
    let base: Rgba = match panel.background {
        PanelBackground::ThemeDefault => theme.background,
        PanelBackground::Dark => theme.dark,
        PanelBackground::Light => theme.light,
        PanelBackground::Color(c) => rgb(c),
    };
    let alpha: F32 = if theme.frosted {
        panel.opacity.times(&theme.blurred_alpha)
    } else {
        panel.opacity
    };
    Rgba { r: base.r, g: base.g, b: base.b, a: alpha }
}

/// The background of the bar.
pub fn bar_background(ov: &Overrides, theme: &ThemeColors, panel: &PanelTheme) -> (c: Rgba)
    ensures
        c == (match ov.bg_color {
            Some(c) => c,
            None => panel_color(*theme, *panel),
        }),
{
    match ov.bg_color {
        Some(c) => c,
        None => panel_bg_color(theme, panel),
    }
}

/// What the desktop theme gives for items.
#[derive(Clone, Copy)]
pub struct ItemTheme {
    /// The small corner radii.
    pub radii: Radii,
    pub accent: Rgba,
    pub button: Rgba,
}

/// The look of an item.
#[derive(Clone, Copy)]
pub struct Appearance {
    pub radii: Radii,
    /// Width and color of the border.
    pub border: Option<(F32, Rgba)>,
    pub background: Option<Rgba>,
}

/// The look of a workspace item: the active one has a border, and the one under
/// the pointer a background.
pub open spec fn item_look(
    theme: ItemTheme,
    is_active: bool,
    hovered: bool,
    ov: Overrides,
) -> Appearance {
    Appearance {
        radii: match ov.item_radius {
            Some(r) => Radii {
                top_left: F32::of_int(r as int),
                top_right: F32::of_int(r as int),
                bottom_right: F32::of_int(r as int),
                bottom_left: F32::of_int(r as int),
            },
            None => Radii {
                top_left: settings::item_radius(theme.radii.top_left),
                top_right: settings::item_radius(theme.radii.top_right),
                bottom_right: settings::item_radius(theme.radii.bottom_right),
                bottom_left: settings::item_radius(theme.radii.bottom_left),
            },
        },
        border: if is_active {
            Some(
                (
                    match ov.active_border_width {
                        Some(w) => w,
                        None => F32::of_int(4),
                    },
                    match ov.active_border_color {
                        Some(c) => settings::opaque(c),
                        None => theme.accent,
                    },
                ),
            )
        } else {
            None
        },
        background: if hovered {
            Some(
                match ov.hover_color {
                    Some(c) => c,
                    None => theme.button,
                },
            )
        } else {
            None
        },
    }
}

/// The look of a workspace item.
pub fn workspace_item_appearance(
    theme: &ItemTheme,
    is_active: bool,
    hovered: bool,
    ov: &Overrides,
) -> (look: Appearance)
    ensures
        look == item_look(*theme, is_active, hovered, *ov),
{
    let radii: Radii = match ov.item_radius {
        Some(r) => {
            let x: F32 = F32::from_u64(r as u64);
            Radii { top_left: x, top_right: x, bottom_right: x, bottom_left: x }
        },
        None => Radii {
            top_left: default_item_radius(theme.radii.top_left),
            top_right: default_item_radius(theme.radii.top_right),
            bottom_right: default_item_radius(theme.radii.bottom_right),
            bottom_left: default_item_radius(theme.radii.bottom_left),
        },
    };
    let border: Option<(F32, Rgba)> = if is_active {
        let width: F32 = match ov.active_border_width {
            Some(w) => w,
            None => F32::from_u64(4),
        };
        let color: Rgba = match ov.active_border_color {
            Some(c) => rgb(c),
            None => theme.accent,
        };
        Some((width, color))
    } else {
        None
    };
    let background: Option<Rgba> = if hovered {
        match ov.hover_color {
            Some(c) => Some(c),
            None => Some(theme.button),
        }
    } else {
        None
    };
    Appearance { radii, border, background }
}

/// The color of labels; `None` for that of the theme.
pub fn label_color(ov: &Overrides) -> (c: Option<Rgba>)
    ensures
        c == (match ov.text_color {
            Some(c) => Some(settings::opaque(c)),
            None => None,
        }),
{
    match ov.text_color {
        Some(c) => Some(rgb(c)),
        None => None,
    }
}

/// Where the overrides of items are set, items look the same under any
/// theme.
pub proof fn overrides_ignore_theme(
    ov: Overrides,
    theme: ItemTheme,
    other: ItemTheme,
    is_active: bool,
    hovered: bool,
)
    requires
        ov.item_radius is Some,
        ov.active_border_color is Some,
        ov.hover_color is Some,
    ensures
        item_look(theme, is_active, hovered, ov) == item_look(other, is_active, hovered, ov),
{
}

/// One number, at least 1.
pub open spec fn at_least_one(n: u32) -> int {
    if n < 1 {
        1
    } else {
        n as int
    }
}

/// Width and height of a preview: as thick as the bar allows, and in the shape
/// of the image, or 16 to 9 while there is none.
pub open spec fn preview_extent(
    image: Option<(u32, u32)>,
    edge: Edge,
    thickness: F32,
) -> (F32, F32) {
    match image {
        Some((w, h)) => {
            let aspect = F32::of_int(at_least_one(w)).quotient(F32::of_int(at_least_one(h)));
            if edge.vertical() {
                (thickness, thickness.quotient(aspect))
            } else {
                (thickness.product(aspect), thickness)
            }
        },
        None => if edge.vertical() {
            (thickness, thickness.product(F32::of_int(9)).quotient(F32::of_int(16)))
        } else {
            (thickness.product(F32::of_int(16)).quotient(F32::of_int(9)), thickness)
        },
    }
}

/// Width and height of a preview.
pub fn preview_size(image: Option<(u32, u32)>, edge: Edge, thickness: F32) -> (size: (F32, F32))
    ensures
        size == preview_extent(image, edge, thickness),
{
    match image {
        Some((w, h)) => {
            let width: u32 = if w < 1 {
                1
            } else {
                w
            };
            let height: u32 = if h < 1 {
                1
            } else {
                h
            };
            let aspect: F32 = F32::from_u64(width as u64).over(&F32::from_u64(height as u64));
            if edge.is_vertical() {
                (thickness, thickness.over(&aspect))
            } else {
                (thickness.times(&aspect), thickness)
            }
        },
        None => if edge.is_vertical() {
            (thickness, thickness.times(&F32::from_u64(9)).over(&F32::from_u64(16)))
        } else {
            (thickness.times(&F32::from_u64(16)).over(&F32::from_u64(9)), thickness)
        },
    }
}

/// What a workspace item shows and does.
pub struct WorkspaceItem {
    /// The number of the preview's pixels; without one, the name stands there.
    pub image: Option<u64>,
    pub width: F32,
    pub height: F32,
    pub selected: bool,
    /// A click switches to this workspace.
    pub on_press: Option<u64>,
    /// A right click opens a menu about this workspace.
    pub menu: Option<(u64, String)>,
}

/// What a workspace item shows and does.
pub fn workspace_item(w: &Workspace, edge: Edge, thickness: F32) -> (item: WorkspaceItem)
    ensures
        ({
            let extent = preview_extent(
                match w.img {
                    Some(i) => Some((i.width, i.height)),
                    None => None,
                },
                edge,
                thickness,
            );
            &&& item.image == (match w.img {
                Some(i) => Some(i.image),
                None => None,
            })
            &&& item.width == extent.0
            &&& item.height == extent.1
            &&& item.selected == w.info.active
            &&& item.on_press == if w.info.can_activate {
                Some(w.info.handle)
            } else {
                None
            }
            &&& item.menu == if w.renamable() {
                Some((w.info.handle, w.info.name))
            } else {
                None
            }
        }),
{
    let image: Option<(u32, u32)> = match w.img {
        Some(i) => Some((i.width, i.height)),
        None => None,
    };
    let pixels: Option<u64> = match w.img {
        Some(i) => Some(i.image),
        None => None,
    };
    let (width, height) = preview_size(image, edge, thickness);
    WorkspaceItem {
        image: pixels,
        width,
        height,
        selected: w.is_active(),
        on_press: if w.info.can_activate {
            Some(w.handle())
        } else {
            None
        },
        menu: if w.can_rename() {
            Some((w.handle(), w.info.name.clone()))
        } else {
            None
        },
    }
}

/// The volume in per cent.
pub open spec fn percent(volume: F64) -> int {
    let scaled = volume.product(F64::of_int(100)).rounded();
    (if scaled.below(F64::of_int(0)) {
        F64::of_int(0)
    } else if F64::of_int(100).below(scaled) {
        F64::of_int(100)
    } else {
        scaled
    }).truncated(0, u16::MAX as int)
}

/// The level bar that shows the volume: the filled part, which is never empty,
/// the rest, and the label.
pub struct VolumeIndicator {
    pub filled: u16,
    pub rest: u16,
    pub label: String,
    pub width: F32,
}

/// The share of the level bar that is filled.
pub open spec fn filled_part(pct: int) -> int {
    if pct < 1 {
        1
    } else if pct > 100 {
        100
    } else {
        pct
    }
}

/// The level bar that shows the volume.
pub fn volume_indicator(volume: F64, width: F32) -> (v: VolumeIndicator)
    ensures
        v.filled == filled_part(percent(volume)),
        v.rest == 100 - v.filled,
        v.label@ == text::decimal(percent(volume) as nat).push('%'),
        v.width == width.sum(F32::of_int(32).negated()),
{
    let zero: F64 = F64::from_u64(0);
    let hundred: F64 = F64::from_u64(100);
    let pct: u16 = volume.times(&hundred).round().clamp(&zero, &hundred).to_u16();
    let filled: u16 = if pct < 1 {
        1
    } else if pct > 100 {
        100
    } else {
        pct
    };
    let mut label: String = text::decimal_of(pct as u64);
    label.push('%');
    VolumeIndicator {
        filled,
        rest: 100 - filled,
        label,
        width: width.minus(&F32::from_u64(32)),
    }
}

/// The volume is never shown as more than 100 per cent.
pub proof fn percent_is_at_most_hundred(volume: F64)
    ensures
        0 <= percent(volume) <= 100,
{
    let top = F64::of_int(100);
    lemma_hundred();
    let scaled = volume.product(top).rounded();
    let shown = if scaled.below(F64::of_int(0)) {
        F64::of_int(0)
    } else if top.below(scaled) {
        top
    } else {
        scaled
    };
    lemma_zero();
    if !shown.nan() {
        let one = whole::one(53);
        vstd::arithmetic::power2::lemma_pow2_pos(1074);
        if shown.rank() <= 0 {
            if shown.mag() == 0 {
                single::lemma_zero_size(53);
                assert(0int / one as int == 0) by (nonlinear_arith)
                    requires
                        one > 0,
                ;
            }
        } else {
            assert(shown.rank() <= top.rank());
            if shown.mag() < top.mag() {
                magnitude::lemma_units_order(53, shown.mag(), top.mag());
            }
            let u = rounding::units(53, shown.mag());
            let q = u as int / one as int;
            assert(q <= 100) by (nonlinear_arith)
                requires
                    u as int <= 100 * one as int,
                    q == u as int / one as int,
                    one > 0,
            ;
        }
    }
}

proof fn lemma_zero()
    ensures
        F64::of_int(0).mag() == 0,
        !F64::of_int(0).negative(),
        !F64::of_int(0).nan(),
{
    single::lemma_zero_size(53);
    whole::lemma_round_own_value(53, 0);
    assert(0 * whole::one(53) == 0);
}

proof fn lemma_hundred()
    ensures
        F64::of_int(100).mag() == 0x4059_0000_0000_0000,
        !F64::of_int(100).negative(),
        !F64::of_int(100).nan(),
        rounding::units(53, 0x4059_0000_0000_0000) == 100 * whole::one(53),
{
    let mag: nat = 0x4059_0000_0000_0000;
    vstd::arithmetic::power2::lemma2_to64();
    vstd::arithmetic::power2::lemma2_to64_rest();
    assert(vstd::arithmetic::power2::pow2(52) == 0x10_0000_0000_0000);
    assert(rounding::significand(53, mag) == 0x19_0000_0000_0000);
    assert(rounding::exponent(53, mag) == 1028);
    vstd::arithmetic::power2::lemma_pow2_adds(46, 1028);
    let a = vstd::arithmetic::power2::pow2(46);
    let b = vstd::arithmetic::power2::pow2(1028);
    assert(a == 0x4000_0000_0000);
    assert(0x19_0000_0000_0000 * b == 100 * (0x4000_0000_0000 * b)) by (nonlinear_arith);
    whole::lemma_round_own_value(53, mag);
}

/// A text followed by the gap that separates it from its next round.
pub open spec fn looped(s: Seq<char>) -> Seq<char> {
    s + seq![' ', ' ', ' ']
}

/// What is seen of a text: all of it if it fits, else a window that has moved on
/// by `offset` and goes round.
pub open spec fn marquee(s: Seq<char>, offset: nat) -> Seq<char> {
    if s.len() <= MEDIA_TEXT_MAX_CHARS {
        s
    } else {
        Seq::new(
            MEDIA_TEXT_MAX_CHARS as nat,
            |i: int| looped(s)[(offset + i) % looped(s).len() as int],
        )
    }
}

/// What is seen of a text.
pub fn marquee_display(s: &str, offset: usize) -> (shown: String)
    ensures
        shown@ == marquee(s@, offset as nat),
{
    let mut chars: Vec<char> = text::chars_of(s);
    if chars.len() <= MEDIA_TEXT_MAX_CHARS {
        return s.to_owned();
    }
    chars.push(' ');
    chars.push(' ');
    chars.push(' ');
    assert(chars@ =~= looped(s@));
    let total: usize = chars.len();
    let mut at: usize = offset % total;
    let mut shown: String = String::new();
    let mut i: usize = 0;
    let ghost goal = marquee(s@, offset as nat);
    proof {
        vstd::arithmetic::div_mod::lemma_mod_bound(offset as int, total as int);
    }
    while i < MEDIA_TEXT_MAX_CHARS
        invariant
            i <= MEDIA_TEXT_MAX_CHARS,
            chars@ == looped(s@),
            s@.len() > MEDIA_TEXT_MAX_CHARS,
            total == chars@.len(),
            total > 0,
            at < total,
            at == (offset + i) % total as int,
            goal == marquee(s@, offset as nat),
            shown@ =~= goal.take(i as int),
        decreases MEDIA_TEXT_MAX_CHARS - i,
    {
        shown.push(chars[at]);
        assert(goal[i as int] == chars@[at as int]);
        proof {
            lemma_next_place(offset + i, total as int);
        }
        at = if at == total - 1 {
            0
        } else {
            at + 1
        };
        i = i + 1;
    }
    assert(goal.take(MEDIA_TEXT_MAX_CHARS as int) =~= goal);
    shown
}

proof fn lemma_next_place(n: int, total: int)
    requires
        total > 0,
    ensures
        (n + 1) % total == if n % total == total - 1 {
            0
        } else {
            n % total + 1
        },
{
    let q = n / total;
    let r = n % total;
    vstd::arithmetic::div_mod::lemma_fundamental_div_mod(n, total);
    vstd::arithmetic::div_mod::lemma_mod_bound(n, total);
    if r == total - 1 {
        assert(n + 1 == (q + 1) * total + 0) by (nonlinear_arith)
            requires
                n == total * q + r,
                r == total - 1,
        ;
        vstd::arithmetic::div_mod::lemma_fundamental_div_mod_converse(n + 1, total, q + 1, 0);
    } else {
        assert(n + 1 == q * total + (r + 1)) by (nonlinear_arith)
            requires
                n == total * q + r,
        ;
        vstd::arithmetic::div_mod::lemma_fundamental_div_mod_converse(n + 1, total, q, r + 1);
    }
}

/// The marquee never takes more room than the longest text that stands still,
/// and after one round it shows the same again.
pub proof fn marquee_goes_round(s: Seq<char>, offset: nat)
    ensures
        marquee(s, offset).len() <= MEDIA_TEXT_MAX_CHARS,
        marquee(s, offset + looped(s).len()) == marquee(s, offset),
{
    let total = looped(s).len() as int;
    if s.len() > MEDIA_TEXT_MAX_CHARS {
        let later = marquee(s, offset + looped(s).len());
        let now = marquee(s, offset);
        assert forall|i: int| 0 <= i < MEDIA_TEXT_MAX_CHARS implies #[trigger] later[i]
            == now[i] by {
            vstd::arithmetic::div_mod::lemma_mod_add_multiples_vanish(offset + i, total);
            assert(offset + looped(s).len() + i == total + (offset + i));
        }
        assert(later =~= now);
    }
}

/// The full text, if only a part of it is seen at a time.
pub fn tooltip_if_truncated(full: &str) -> (tip: Option<String>)
    ensures
        tip is Some == (full@.len() > MEDIA_TEXT_MAX_CHARS),
        tip matches Some(t) ==> t@ == full@,
{
    if text::chars_of(full).len() <= MEDIA_TEXT_MAX_CHARS {
        None
    } else {
        Some(full.to_owned())
    }
}

/// What stands in the place of the album art.
#[derive(Clone, Copy, Debug, PartialEq, Eq, Structural)]
pub enum ArtView {
    /// The picture with this number.
    Picture(u64),
    /// An icon.
    Loading,
    Music,
}

impl ArtView {
    /// The name of the icon.
    pub fn icon(self) -> (name: Option<&'static str>)
        ensures
            match self {
                ArtView::Picture(_) => name is None,
                ArtView::Loading => name matches Some(n) && n@ == "content-loading-symbolic"@,
                ArtView::Music => name matches Some(n) && n@ == "folder-music-symbolic"@,
            },
    {
        match self {
            ArtView::Picture(_) => None,
            ArtView::Loading => Some("content-loading-symbolic"),
            ArtView::Music => Some("folder-music-symbolic"),
        }
    }
}

/// What the media block shows and does.
pub struct MediaControls {
    pub art: ArtView,
    pub title: String,
    pub title_tooltip: Option<String>,
    pub artist: String,
    pub artist_tooltip: Option<String>,
    /// Shown in place of the artist for a while.
    pub volume: Option<VolumeIndicator>,
    pub play_icon: &'static str,
    pub can_go_previous: bool,
    pub can_play_pause: bool,
    pub can_go_next: bool,
    /// A click on art or text brings the player up.
    pub raises: bool,
    /// Scrolling changes the volume.
    pub scrolls: bool,
}

/// The title that is shown.
pub open spec fn shown_title(title: Seq<char>) -> Seq<char> {
    if title.len() == 0 {
        "Not playing"@
    } else {
        title
    }
}

/// `tip` tells `full` where not all of it is seen.
pub open spec fn tells(tip: Option<String>, full: Seq<char>) -> bool {
    if full.len() > MEDIA_TEXT_MAX_CHARS {
        tip matches Some(t) && t@ == full
    } else {
        tip is None
    }
}

/// What the media block shows of a player.
pub fn media_controls(
    media: &Option<MediaState>,
    volume_scroll: bool,
    thickness: F32,
) -> (res: Option<MediaControls>)
    ensures
        res is Some == (*media is Some),
        res matches Some(c) ==> {
            let m = media->0;
            let title = shown_title(m.info.title@);
            &&& c.art == (match m.art {
                Some(n) => ArtView::Picture(n),
                None => if m.art_pending {
                    ArtView::Loading
                } else {
                    ArtView::Music
                },
            })
            &&& c.title@ == marquee(title, m.marquee_offset as nat)
            &&& tells(c.title_tooltip, title)
            &&& c.artist@ == marquee(m.info.artist@, m.marquee_offset as nat)
            &&& tells(c.artist_tooltip, m.info.artist@)
            &&& c.volume is Some == (m.volume is Some)
            &&& c.volume matches Some(v) ==> {
                &&& v.filled == filled_part(percent(m.volume->0))
                &&& v.rest == 100 - v.filled
                &&& v.label@ == text::decimal(percent(m.volume->0) as nat).push('%')
                &&& v.width == thickness.sum(F32::of_int(32).negated())
            }
            &&& c.play_icon@ == if m.info.status == PlaybackStatus::Playing {
                "media-playback-pause-symbolic"@
            } else {
                "media-playback-start-symbolic"@
            }
            &&& c.can_go_previous == m.info.can_go_previous
            &&& c.can_play_pause == m.info.can_play_pause
            &&& c.can_go_next == m.info.can_go_next
            &&& c.raises == m.info.can_raise
            &&& c.scrolls == volume_scroll
        },
{
    match media {
        Some(m) => {
            let title: String = if text::is_empty(&m.info.title) {
                "Not playing".to_owned()
            } else {
                m.info.title.clone()
            };
            let art: ArtView = match m.art {
                Some(n) => ArtView::Picture(n),
                None => if m.art_pending {
                    ArtView::Loading
                } else {
                    ArtView::Music
                },
            };
            let volume: Option<VolumeIndicator> = match m.volume {
                Some(v) => Some(volume_indicator(v, thickness)),
                None => None,
            };
            let play_icon: &'static str = if m.info.status == PlaybackStatus::Playing {
                "media-playback-pause-symbolic"
            } else {
                "media-playback-start-symbolic"
            };
            Some(
                MediaControls {
                    art,
                    title: marquee_display(&title, m.marquee_offset),
                    title_tooltip: tooltip_if_truncated(&title),
                    artist: marquee_display(&m.info.artist, m.marquee_offset),
                    artist_tooltip: tooltip_if_truncated(&m.info.artist),
                    volume,
                    play_icon,
                    can_go_previous: m.info.can_go_previous,
                    can_play_pause: m.info.can_play_pause,
                    can_go_next: m.info.can_go_next,
                    raises: m.info.can_raise,
                    scrolls: volume_scroll,
                },
            )
        },
        None => None,
    }
}

/// What the media block shows while there is no player: the same shape, with
/// nothing to press.
pub fn media_placeholder() -> (c: MediaControls)
    ensures
        c.art is Music,
        c.title@ == "Not playing"@,
        c.artist@.len() == 0,
        c.title_tooltip is None,
        c.artist_tooltip is None,
        c.volume is None,
        c.play_icon@ == "media-playback-start-symbolic"@,
        !c.can_go_previous && !c.can_play_pause && !c.can_go_next,
        !c.raises && !c.scrolls,
{
    MediaControls {
        art: ArtView::Music,
        title: "Not playing".to_owned(),
        title_tooltip: None,
        artist: String::new(),
        artist_tooltip: None,
        volume: None,
        play_icon: "media-playback-start-symbolic",
        can_go_previous: false,
        can_play_pause: false,
        can_go_next: false,
        raises: false,
        scrolls: false,
    }
}

/// An entry of the context menu.
#[derive(Clone, Copy, Debug, PartialEq, Eq, Structural)]
pub enum MenuEntry {
    Rename,
    Divider,
    Settings,
}

/// The entries of the context menu; a workspace can be renamed.
pub fn menu_view(menu: &Option<ContextMenu>) -> (entries: Vec<MenuEntry>)
    ensures
        entries@ == if *menu matches Some(m) && m.workspace is Some {
            seq![MenuEntry::Rename, MenuEntry::Divider, MenuEntry::Settings]
        } else {
            seq![MenuEntry::Settings]
        },
{
    let about_workspace: bool = match menu {
        Some(m) => m.workspace.is_some(),
        None => false,
    };
    let mut entries: Vec<MenuEntry> = Vec::new();
    if about_workspace {
        entries.push(MenuEntry::Rename);
        entries.push(MenuEntry::Divider);
    }
    entries.push(MenuEntry::Settings);
    entries
}

/// The text in the rename dialog.
pub fn rename_view(rename: &Option<RenameDialog>) -> (value: String)
    ensures
        value@ == (match *rename {
            Some(d) => d.value@,
            None => Seq::empty(),
        }),
{
    match rename {
        Some(d) => d.value.clone(),
        None => String::new(),
    }
}

/// A preview has the shape of its image whatever edge the bar is on: its width
/// is to its height as the image's width is to the image's height, but for a few
/// parts in `2^24`. Across the bar it is as thick as asked for.
pub proof fn previews_keep_their_shape(w: u32, h: u32, edge: Edge, thickness: F32)
    requires
        w >= 1,
        h >= 1,
        moderate(thickness),
    ensures
        ({
            let (pw, ph) = preview_extent(Some((w, h)), edge, thickness);
            &&& pw.finite() && ph.finite() && !pw.negative() && !ph.negative()
            &&& near(pw.size() * h as int, ph.size() * w as int, 10)
            &&& (edge is Left || edge is Right) ==> pw == thickness
            &&& (edge is Top || edge is Bottom) ==> ph == thickness
        }),
{
    let (wi, hi) = (w as int, h as int);
    let t = thickness.size() as int;
    let aspect = F32::of_int(wi).quotient(F32::of_int(hi));
    if edge is Left || edge is Right {
        unscaling_is_near(thickness, wi, hi);
        let r = thickness.quotient(aspect).size() as int;
        assert(0 <= r * wi) by (nonlinear_arith)
            requires
                r >= 0,
                wi >= 0,
        ;
    } else {
        scaling_is_near(thickness, wi, hi);
        assert(0 <= t * wi) by (nonlinear_arith)
            requires
                t >= 0,
                wi >= 0,
        ;
    }
}

/// A square image has a square preview, exactly as wide and as high as the bar
/// allows, on every edge; so has one without pixels.
pub proof fn square_images_stay_square(n: u32, edge: Edge, thickness: F32)
    requires
        thickness.finite(),
    ensures
        preview_extent(Some((n, n)), edge, thickness) == (thickness, thickness),
        preview_extent(Some((0, 1)), edge, thickness) == (thickness, thickness),
        preview_extent(Some((1, 0)), edge, thickness) == (thickness, thickness),
{
    let k = at_least_one(n);
    whole_numbers_are_moderate(k);
    whole_numbers_are_moderate(1);
    single::lemma_zero_size(24);
    vstd::arithmetic::power2::lemma_pow2_pos(149);
    one_is_neutral(F32::of_int(k));
    one_is_neutral(F32::of_int(1));
    one_is_neutral(thickness);
}

/// Without an image the preview is sixteen wide to nine high, on every edge.
pub proof fn missing_previews_are_wide(edge: Edge, thickness: F32)
    requires
        moderate(thickness),
        thickness.size() <= 0x1_0000_0000 * whole::one(24),
        whole::one(24) <= thickness.size() * 0x1_0000_0000,
    ensures
        ({
            let (pw, ph) = preview_extent(None, edge, thickness);
            &&& near(pw.size() as int * 9, ph.size() as int * 16, 10)
            &&& (edge is Left || edge is Right) ==> pw == thickness
            &&& (edge is Top || edge is Bottom) ==> ph == thickness
        }),
{
    let sixteen = F32::of_int(16);
    let nine = F32::of_int(9);
    whole_numbers_are_moderate(16);
    whole_numbers_are_moderate(9);
    crate::float::exact::whole_numbers_are_exact(16);
    crate::float::exact::whole_numbers_are_exact(9);
    let o: int = whole::one(24) as int;
    vstd::arithmetic::power2::lemma_pow2_pos(149);
    let t = thickness.size() as int;
    let (by, over) = if edge is Left || edge is Right {
        (nine, sixteen)
    } else {
        (sixteen, nine)
    };
    let (b, v): (int, int) = if edge is Left || edge is Right {
        (9, 16)
    } else {
        (16, 9)
    };
    moderate_products_are_near(thickness, by);
    let p = thickness.product(by);
    let m = p.size() as int;
    assert(t * (b * o) == (t * b) * o) by (nonlinear_arith);
    lemma_near_scaled(m, t * b, 1, o);
    assert(near(m, t * b, 1));
    assert(1 * (t * b) == t * b);
    assert(9 * t <= t * b <= 16 * t) by (nonlinear_arith)
        requires
            9 <= b <= 16,
            t >= 0,
    ;
    assert(2 * m >= t * b && m <= 2 * (t * b));
    assert(moderate(p));
    moderate_quotients_are_near(p, over);
    let r = p.quotient(over).size() as int;
    assert(r * (v * o) == (r * v) * o) by (nonlinear_arith);
    lemma_near_scaled(r * v, m, 1, o);
    lemma_near_chain(r * v, m, t * b, 1, 1);
    if edge is Left || edge is Right {
        lemma_near_back(r * 16, t * 9, 3);
    }
}

/// A workspace stands along a bar if and only if it is on the bar's output.
proof fn lemma_workspace_items(workspaces: Seq<Workspace>, output: u64, i: int)
    requires
        0 <= i < workspaces.len() <= usize::MAX,
    ensures
        workspace_items(workspaces, output).contains(Item::Workspace(i as usize))
            == workspaces[i].on(output),
        !workspace_items(workspaces, output).contains(Item::Media),
    decreases workspaces.len(),
{
    let rest = workspace_items(workspaces.drop_last(), output);
    let all = workspace_items(workspaces, output);
    let last = Item::Workspace((workspaces.len() - 1) as usize);
    lemma_places(workspaces.drop_last(), output);
    if workspaces.last().on(output) {
        assert(all == rest.push(last));
        assert(all[rest.len() as int] == last);
        if rest.contains(Item::Workspace(i as usize)) {
            let j = rest.index_of(Item::Workspace(i as usize));
            assert(all[j] == Item::Workspace(i as usize));
        }
        if all.contains(Item::Workspace(i as usize)) && i < workspaces.len() - 1 {
            let j = choose|j: int| 0 <= j < all.len() && all[j] == Item::Workspace(i as usize);
            assert(rest[j] == Item::Workspace(i as usize));
        }
    }
    if i < workspaces.len() - 1 {
        lemma_workspace_items(workspaces.drop_last(), output, i);
    } else {
        if rest.contains(Item::Workspace(i as usize)) {
            let j = choose|j: int| 0 <= j < rest.len() && rest[j] == Item::Workspace(i as usize);
            assert(rest[j] is Workspace);
        }
    }
    lemma_places(workspaces, output);
    if all.contains(Item::Media) {
        let j = choose|j: int| 0 <= j < all.len() && all[j] == Item::Media;
        assert(all[j] is Workspace);
    }
}

/// Workspaces stand along a bar in their order.
proof fn lemma_places(workspaces: Seq<Workspace>, output: u64)
    requires
        workspaces.len() <= usize::MAX,
    ensures
        forall|j: int|
            0 <= j < workspace_items(workspaces, output).len() ==> (
            #[trigger] workspace_items(workspaces, output)[j]) is Workspace && workspace_items(
                workspaces,
                output,
            )[j]->Workspace_0 < workspaces.len(),
        forall|j: int, k: int|
            0 <= j < k < workspace_items(workspaces, output).len() ==> (
            #[trigger] workspace_items(workspaces, output)[j])->Workspace_0 < (
            #[trigger] workspace_items(workspaces, output)[k])->Workspace_0,
    decreases workspaces.len(),
{
    if workspaces.len() > 0 {
        lemma_places(workspaces.drop_last(), output);
    }
}

/// A bar shows exactly the workspaces of its output, each once and in order, and
/// the media block once if it is wanted: before all of them or after all of them.
pub proof fn bars_show_their_workspaces(
    workspaces: Seq<Workspace>,
    output: u64,
    media: bool,
    position: MediaPosition,
)
    requires
        workspaces.len() <= usize::MAX,
    ensures
        ({
            let items = items_on(workspaces, output, media, position);
            &&& forall|i: int|
                0 <= i < workspaces.len() ==> items.contains(
                    Item::Workspace(#[trigger] (i as usize)),
                ) == workspaces[i].on(output)
            &&& items.no_duplicates()
            &&& forall|j: int, k: int|
                0 <= j < k < items.len() && #[trigger] items[j] is Workspace
                    && #[trigger] items[k] is Workspace ==> items[j]->Workspace_0
                    < items[k]->Workspace_0
            &&& forall|j: int|
                0 <= j < items.len() && #[trigger] items[j] is Media ==> media && j == if position
                    is Start {
                    0
                } else {
                    items.len() - 1
                }
            &&& media ==> items.contains(Item::Media)
        }),
{
    let items = items_on(workspaces, output, media, position);
    let base = workspace_items(workspaces, output);
    lemma_places(workspaces, output);
    assert forall|i: int| 0 <= i < workspaces.len() implies items.contains(
        Item::Workspace(#[trigger] (i as usize)),
    ) == workspaces[i].on(output) by {
        lemma_workspace_items(workspaces, output, i);
        let it = Item::Workspace(i as usize);
        if media {
            let shift: int = if position is Start {
                1
            } else {
                0
            };
            if base.contains(it) {
                let j = base.index_of(it);
                assert(items[j + shift] == it);
            }
            if items.contains(it) {
                let j = items.index_of(it);
                assert(base[j - shift] == it);
            }
        }
    }
    if media {
        if position is Start {
            assert(items[0] == Item::Media);
            assert forall|j: int| 0 < j < items.len() implies #[trigger] items[j] == base[j
                - 1] by {}
        } else {
            assert(items[base.len() as int] == Item::Media);
            assert forall|j: int| 0 <= j < base.len() implies #[trigger] items[j] == base[j] by {}
        }
    }
}

/// The two corners of a bar that lie at an edge.
pub open spec fn corners_at(radii: Radii, edge: Edge) -> (F32, F32) {
    match edge {
        Edge::Top => (radii.top_left, radii.top_right),
        Edge::Bottom => (radii.bottom_left, radii.bottom_right),
        Edge::Left => (radii.top_left, radii.bottom_left),
        Edge::Right => (radii.top_right, radii.bottom_right),
    }
}

/// The corners of a bar away from the screen edge have the chosen radius, or the
/// panel's without a choice. Those at the screen edge have the same or are square.
pub proof fn corners_face_the_screen(
    chosen: Option<u32>,
    panel: u32,
    round_edge: bool,
    edge: Edge,
    radii: Radii,
)
    requires
        call_ensures(bar_radii, (chosen, panel, round_edge, edge), radii),
    ensures
        ({
            let r = F32::of_int(if chosen is Some {
                chosen->0 as int
            } else {
                panel as int
            });
            &&& corners_at(radii, crate::config::opposite(edge)) == (r, r)
            &&& corners_at(radii, edge) == if round_edge {
                (r, r)
            } else {
                (F32::of_int(0), F32::of_int(0))
            }
        }),
{
}

/// The panel's color does not depend on its opacity, nor its opacity on the
/// color; frosted glass is never more opaque than the panel itself.
pub proof fn glass_is_not_more_opaque(
    theme: ThemeColors,
    panel: PanelTheme,
    other: PanelBackground,
    opacity: F32,
)
    ensures
        ({
            let c = panel_color(theme, panel);
            let recolored = panel_color(theme, PanelTheme { background: other, ..panel });
            let faded = panel_color(theme, PanelTheme { opacity, ..panel });
            &&& c.a == recolored.a
            &&& (faded.r, faded.g, faded.b) == (c.r, c.g, c.b)
            &&& !theme.frosted ==> c.a == panel.opacity
            &&& panel.background matches PanelBackground::Color(x) ==> (c.r, c.g, c.b) == (
                x.r,
                x.g,
                x.b,
            )
            &&& panel.background is Dark ==> (c.r, c.g, c.b) == (
                theme.dark.r,
                theme.dark.g,
                theme.dark.b,
            )
            &&& panel.background is Light ==> (c.r, c.g, c.b) == (
                theme.light.r,
                theme.light.g,
                theme.light.b,
            )
            &&& panel.background is ThemeDefault ==> (c.r, c.g, c.b) == (
                theme.background.r,
                theme.background.g,
                theme.background.b,
            )
        }),
        theme.frosted && panel.opacity.finite() && !panel.opacity.negative()
            && theme.blurred_alpha.finite() && !theme.blurred_alpha.negative() && !F32::of_int(
            1,
        ).below(theme.blurred_alpha) ==> !panel.opacity.below(panel_color(theme, panel).a),
        theme.frosted && panel.opacity.finite() && theme.blurred_alpha == F32::of_int(1)
            ==> panel_color(theme, panel).a == panel.opacity,
        theme.frosted && panel.opacity == F32::of_int(1) && theme.blurred_alpha.finite()
            ==> panel_color(theme, panel).a == theme.blurred_alpha,
{
    if panel.opacity.finite() {
        one_is_neutral(panel.opacity);
    }
    if theme.blurred_alpha.finite() {
        one_is_neutral(theme.blurred_alpha);
        let (x, y) = (panel.opacity.size(), theme.blurred_alpha.size());
        assert(x * y == y * x) by (nonlinear_arith);
        crate::float::exact::whole_numbers_are_exact(1);
        assert(panel.opacity.finite() ==> panel.opacity.product(theme.blurred_alpha)
            == theme.blurred_alpha.product(panel.opacity));
    }
    if theme.frosted && panel.opacity.finite() && !panel.opacity.negative()
        && theme.blurred_alpha.finite() && !theme.blurred_alpha.negative() && !F32::of_int(
        1,
    ).below(theme.blurred_alpha) {
        fractions_do_not_enlarge(panel.opacity, theme.blurred_alpha);
    }
}

/// Only the active item has a border and only the one under the pointer a
/// background; neither changes the other, nor the corners. Each override shows
/// in its own place.
pub proof fn items_show_their_state(
    theme: ItemTheme,
    is_active: bool,
    hovered: bool,
    ov: Overrides,
)
    ensures
        ({
            let look = item_look(theme, is_active, hovered, ov);
            &&& look.border is Some == is_active
            &&& look.background is Some == hovered
            &&& look.border == item_look(theme, is_active, !hovered, ov).border
            &&& look.background == item_look(theme, !is_active, hovered, ov).background
            &&& look.radii == item_look(theme, !is_active, !hovered, ov).radii
            &&& look.border matches Some((width, color)) ==> {
                &&& ov.active_border_width is Some ==> width == ov.active_border_width->0
                &&& ov.active_border_width is None ==> width == F32::of_int(4)
                &&& ov.active_border_color matches Some(c) ==> (
                    color.r,
                    color.g,
                    color.b,
                    color.a,
                ) == (c.r, c.g, c.b, F32::of_int(1))
                &&& ov.active_border_color is None ==> color == theme.accent
            }
            &&& hovered && ov.hover_color is Some ==> look.background == ov.hover_color
            &&& hovered && ov.hover_color is None ==> look.background == Some(theme.button)
            &&& ov.item_radius matches Some(r) ==> corners_at(look.radii, Edge::Top) == (
                F32::of_int(r as int),
                F32::of_int(r as int),
            ) && corners_at(look.radii, Edge::Bottom) == corners_at(look.radii, Edge::Top)
        }),
{
}

/// A text that does not fit moves on by one character with each step of the
/// offset. The first window shows its beginning, and the gap follows its end. A
/// text that fits stands still and is seen whole.
pub proof fn marquee_moves_on(s: Seq<char>, offset: nat, i: int)
    ensures
        s.len() <= 22 ==> marquee(s, offset) == s,
        s.len() > 22 ==> {
            &&& marquee(s, offset).len() == 22
            &&& marquee(s, 0) == s.take(22)
            &&& 0 <= i < 21 ==> marquee(s, offset + 1)[i] == marquee(s, offset)[i + 1]
            &&& offset < s.len() ==> marquee(s, offset)[0] == s[offset as int]
            &&& s.len() <= offset < s.len() + 3 ==> marquee(s, offset)[0] == ' '
            &&& marquee(s, s.len() + 3) == s.take(22)
        },
{
    if s.len() > 22 {
        let total = s.len() as int + 3;
        marquee_goes_round(s, 0);
        assert forall|k: int| 0 <= k < total implies #[trigger] (k % total) == k by {
            vstd::arithmetic::div_mod::lemma_small_mod(k as nat, total as nat);
        }
        let first = marquee(s, 0);
        assert forall|k: int| 0 <= k < 22 implies #[trigger] first[k] == s[k] by {
            assert(k % total == k);
        }
        assert(first =~= s.take(22));
        if offset < s.len() + 3 {
            assert(offset as int % total == offset);
        }
    }
}

/// A volume between none and full is shown in per cent, rounded to a whole number:
/// the slack is half a per cent, and one part in `2^53`. Anything louder is shown
/// as full.
pub proof fn volumes_are_shown_in_per_cent(volume: F64)
    requires
        volume.finite(),
        !volume.negative(),
        volume.size() >= 0x10_0000_0000_0000,
    ensures
        volume.size() <= whole::one(53) ==> 2 * apart(
            percent(volume) * whole::one(53),
            100 * volume.size() as int,
        ) * 0x20_0000_0000_0000 <= (0x20_0000_0000_0000 + 200) * whole::one(53),
        volume.size() >= whole::one(53) ==> percent(volume) == 100,
{
    let o: int = whole::one(53) as int;
    vstd::arithmetic::power2::lemma_pow2_pos(1074);
    rounding::lemma_pow2_steps();
    whole_doubles_are_exact(100);
    whole_doubles_are_exact(0);
    let hundred = F64::of_int(100);
    let s: int = volume.size() as int;
    let scaled = volume.product(hundred);
    let num: nat = (100 * s) as nat;
    assert(volume.size() * hundred.size() == num * (o as nat)) by (nonlinear_arith)
        requires
            hundred.size() == 100 * o,
            num == 100 * s,
            s == volume.size(),
            o > 0,
    ;
    assert(1 * o == o);
    rounding::lemma_nearest_scale(53, num, 1, o as nat);
    let mag = magnitude::round(53, num, 1);
    assert(scaled == F64::of(false, mag));
    let top: nat = (100 * o) as nat;
    whole::lemma_round_own_value(53, hundred.mag());
    let m: int = 0x20_0000_0000_0000;
    if s <= o {
        rounding_keeps_order(53, num, top, 1);
        assert(mag <= hundred.mag());
        if mag < hundred.mag() {
            magnitude::lemma_units_order(53, mag, hundred.mag());
        }
        let x: int = rounding::units(53, mag) as int;
        rounding_error_is_small(53, num, 1);
        assert(apart(x, num as int) * m <= num);
        assert(x <= 100 * o);
        vstd::arithmetic::div_mod::lemma_fundamental_div_mod(2 * x + o, 2 * o);
        vstd::arithmetic::div_mod::lemma_mod_bound(2 * x + o, 2 * o);
        let n: int = (2 * x + o) / (2 * o);
        assert((2 * o) * n == 2 * (n * o)) by (nonlinear_arith);
        assert(0 <= n <= 100) by (nonlinear_arith)
            requires
                n == (2 * x + o) / (2 * o),
                0 <= x <= 100 * o,
                o > 0,
        ;
        whole_doubles_are_exact(n);
        let shown = scaled.rounded();
        assert(shown == F64::of_int(n));
        double_order(shown, F64::of_int(0));
        double_order(hundred, shown);
        assert(n * o <= 100 * o) by (nonlinear_arith)
            requires
                n <= 100,
                o > 0,
        ;
        assert(n * o >= 0) by (nonlinear_arith)
            requires
                n >= 0,
                o > 0,
        ;
        assert(0 * o == 0) by (nonlinear_arith);
        assert(percent(volume) == n);
        assert(2 * apart(n * o, x) <= o);
        let e = apart(n * o, 100 * s);
        assert(e <= apart(n * o, x) + apart(x, num as int));
        assert(2 * e * m <= o * m + 2 * (100 * s));
        assert((m + 200) * o == o * m + 200 * o) by (nonlinear_arith);
        assert(2 * e * m <= (m + 200) * o);
    }
    if s >= o {
        rounding_keeps_order(53, top, num, 1);
        assert(mag >= hundred.mag());
        if mag < magnitude::infinity(53) {
            if hundred.mag() < mag {
                magnitude::lemma_units_order(53, hundred.mag(), mag);
            }
            let x: int = rounding::units(53, mag) as int;
            let n: int = (2 * x + o) / (2 * o);
            assert(n >= 100) by (nonlinear_arith)
                requires
                    n == (2 * x + o) / (2 * o),
                    x >= 100 * o,
                    o > 0,
            ;
            let shown = scaled.rounded();
            assert(n * o >= 100 * o) by (nonlinear_arith)
                requires
                    n >= 100,
                    o > 0,
            ;
            rounding_keeps_order(53, top, (n * o) as nat, 1);
            assert(shown.mag() >= hundred.mag());
            assert(!shown.negative());
        } else {
            assert(scaled.infinite());
        }
        if s == o {
            assert(num == top);
        }
        whole_doubles_are_exact(100);
    }
}

/// What a workspace item shows and does is about its own workspace: its own preview,
/// marked if it is the active one; a click switches to it if it can be switched to,
/// and a right click offers to rename it if it can be renamed.
pub proof fn items_are_about_their_workspace(
    w: Workspace,
    edge: Edge,
    thickness: F32,
    item: WorkspaceItem,
)
    requires
        call_ensures(workspace_item, (&w, edge, thickness), item),
    ensures
        item.image is Some == w.img is Some,
        w.img matches Some(i) ==> item.image == Some(i.image),
        item.selected == w.info.active,
        item.on_press is Some == w.info.can_activate,
        item.on_press matches Some(h) ==> h == w.info.handle,
        item.menu is Some == (w.info.cosmic_handle && w.info.cosmic_rename),
        item.menu matches Some((h, name)) ==> h == w.info.handle && name == w.info.name,
        edge is Left || edge is Right ==> item.width == thickness,
        edge is Top || edge is Bottom ==> item.height == thickness,
        (w.img matches Some(i) && i.width == i.height) && thickness.finite() ==> item.width
            == thickness && item.height == thickness,
{
    if let Some(i) = w.img {
        if i.width == i.height && thickness.finite() {
            square_images_stay_square(i.width, edge, thickness);
        }
    }
}

/// The background that the user chose is the bar's, to the last bit; without a
/// choice it is as opaque as the panel.
pub proof fn chosen_backgrounds_are_shown(
    ov: Overrides,
    theme: ThemeColors,
    panel: PanelTheme,
    c: Rgba,
    label: Option<Rgba>,
)
    requires
        call_ensures(bar_background, (&ov, &theme, &panel), c),
        call_ensures(label_color, (&ov,), label),
    ensures
        ov.bg_color is Some ==> c == ov.bg_color->0,
        ov.bg_color is None && !theme.frosted ==> c.a == panel.opacity,
        label is Some == ov.text_color is Some,
        ov.text_color matches Some(t) ==> (label matches Some(l) && l.r == t.r && l.g == t.g && l.b
            == t.b && l.a == F32::of_int(1)),
{
    glass_is_not_more_opaque(theme, panel, panel.background, panel.opacity);
}

/// The level bar is filled as far as the volume goes, and shows it in per cent.
pub proof fn level_bars_show_the_volume(volume: F64, width: F32, v: VolumeIndicator)
    requires
        call_ensures(volume_indicator, (volume, width), v),
    ensures
        v.filled + v.rest == 100,
        1 <= v.filled <= 100,
        v.filled == percent(volume) || (percent(volume) == 0 && v.filled == 1),
        v.label@.last() == '%',
        text::number_of(v.label@.drop_last()) == percent(volume),
{
    percent_is_at_most_hundred(volume);
    let digits = text::decimal(percent(volume) as nat);
    text::digits_stand_for_the_number(percent(volume) as nat);
    assert(v.label@.drop_last() =~= digits);
}

/// A menu always leads to the settings, and offers to rename if and only if it is
/// about a workspace.
pub proof fn menus_fit_what_was_pressed(menu: Option<ContextMenu>, entries: Vec<MenuEntry>)
    requires
        call_ensures(menu_view, (&menu,), entries),
    ensures
        entries@.len() > 0,
        entries@.last() is Settings,
        entries@.contains(MenuEntry::Rename) == (menu matches Some(m) && m.workspace is Some),
{
    if menu matches Some(m) && m.workspace is Some {
        assert(entries@[0] is Rename);
    }
}

/// The media block shows the player's title and artist, whole if they fit and else
/// with the whole text at hand; a player without a title counts as not playing. Its
/// buttons do what the player can do, and the play button offers to pause what plays.
pub proof fn media_blocks_show_the_player(
    m: MediaState,
    scroll: bool,
    thickness: F32,
    res: Option<MediaControls>,
)
    requires
        call_ensures(media_controls, (&Some(m), scroll, thickness), res),
    ensures
        res matches Some(c) && {
            &&& 0 < m.info.title@.len() <= 22 ==> c.title@ == m.info.title@ && c.title_tooltip
                is None
            &&& m.info.title@.len() > 22 ==> c.title@.len() == 22 && (
            c.title_tooltip matches Some(t) && t@ == m.info.title@)
            &&& m.info.title@.len() == 0 ==> c.title@ == "Not playing"@
            &&& m.info.artist@.len() <= 22 ==> c.artist@ == m.info.artist@ && c.artist_tooltip
                is None
            &&& m.info.artist@.len() > 22 ==> c.artist@.len() == 22 && (
            c.artist_tooltip matches Some(t) && t@ == m.info.artist@)
            &&& m.art matches Some(n) ==> c.art == ArtView::Picture(n)
            &&& m.art is None ==> c.art is Loading == m.art_pending
            &&& c.can_go_next == m.info.can_go_next && c.can_go_previous == m.info.can_go_previous
            &&& c.can_play_pause == m.info.can_play_pause && c.raises == m.info.can_raise
            &&& c.volume is Some == m.volume is Some
            &&& c.scrolls == scroll
            &&& (c.play_icon@ == "media-playback-pause-symbolic"@) == (m.info.status is Playing)
        },
        call_ensures(media_controls, (&None, scroll, thickness), res) ==> res is None,
{
    reveal_strlit("Not playing");
    reveal_strlit("media-playback-pause-symbolic");
    reveal_strlit("media-playback-start-symbolic");
    assert("media-playback-pause-symbolic"@[15] != "media-playback-start-symbolic"@[15]);
    assert("Not playing"@.len() == 11);
}

} // verus!
