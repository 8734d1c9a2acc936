//! What the user can configure, and the look of the desktop's panel.

use crate::float::single::F32;
use crate::text::same_text;
use vstd::prelude::*;

verus! {

pub const APP_ID: &'static str = "com.github.antony.CosmicWorkspacesBar";

pub const CONFIG_VERSION: u64 = 1;

pub const PANEL_CONFIG_ID: &'static str = "com.system76.CosmicPanel.Panel";

/// A screen edge.
#[derive(Clone, Copy, Debug, PartialEq, Eq, Structural)]
pub enum Edge {
    Top,
    Bottom,
    Left,
    Right,
}

/// The screen edges that a surface is attached to.
#[derive(Clone, Copy, Debug, PartialEq, Eq, Structural)]
pub struct Anchor {
    pub top: bool,
    pub bottom: bool,
    pub left: bool,
    pub right: bool,
}

/// Width and height of a surface; `None` stretches it.
pub type SurfaceSize = Option<(Option<u32>, Option<u32>)>;

impl Edge {
    pub open spec fn vertical(self) -> bool {
        self is Left || self is Right
    }

    /// The anchor that names this edge alone.
    pub open spec fn alone(self) -> Anchor {
        Anchor {
            top: self is Top,
            bottom: self is Bottom,
            left: self is Left,
            right: self is Right,
        }
    }

    /// The anchor that names this edge and the two next to it.
    pub open spec fn along(self) -> Anchor {
        Anchor {
            top: !(self is Bottom),
            bottom: !(self is Top),
            left: !(self is Right),
            right: !(self is Left),
        }
    }

    /// The size of a bar of thickness `size` that stretches along the edge.
    pub open spec fn stretched(self, size: u32) -> SurfaceSize {
        if self.vertical() {
            Some((Some(size), None))
        } else {
            Some((None, Some(size)))
        }
    }

    pub fn is_vertical(self) -> (b: bool)
        ensures
            b == self.vertical(),
    {
        matches!(self, Edge::Left | Edge::Right)
    }

    /// Anchor for a bar that stretches along the edge: the edge itself and the
    /// two edges next to it.
    pub fn anchor(self) -> (a: Anchor)
        ensures
            a == self.along(),
    {
        match self {
            Edge::Top => Anchor { top: true, bottom: false, left: true, right: true },
            Edge::Bottom => Anchor { top: false, bottom: true, left: true, right: true },
            Edge::Left => Anchor { top: true, bottom: true, left: true, right: false },
            Edge::Right => Anchor { top: true, bottom: true, left: false, right: true },
        }
    }

    /// (width, height) for the layer surface; `None` stretches along the edge.
    pub fn layer_size(self, size: u32) -> (res: Option<(Option<u32>, Option<u32>)>)
        ensures
            res == self.stretched(size),
    {
        if self.is_vertical() {
            Some((Some(size), None))
        } else {
            Some((None, Some(size)))
        }
    }

    /// Anchor for shrink-to-content mode; the compositor centers a surface
    /// that is anchored to one edge alone.
    pub fn solo_anchor(self) -> (a: Anchor)
        ensures
            a == self.alone(),
    {
        match self {
            Edge::Top => Anchor { top: true, bottom: false, left: false, right: false },
            Edge::Bottom => Anchor { top: false, bottom: true, left: false, right: false },
            Edge::Left => Anchor { top: false, bottom: false, left: true, right: false },
            Edge::Right => Anchor { top: false, bottom: false, left: false, right: true },
        }
    }
}

impl Default for Edge {
    fn default() -> (e: Edge)
        ensures
            e == Edge::Right,
    {
        Edge::Right
    }
}

/// Which reserved strips are cropped out of previews.
#[derive(Clone, Copy, Debug, PartialEq, Eq, Structural)]
pub enum Clip {
    /// Crop this bar's reserved strip out of workspace previews.
    OwnBar,
    /// Crop every exclusive bar, panel or dock strip out of previews.
    AllBars,
    /// Show previews uncropped.
    Nothing,
}

impl Default for Clip {
    fn default() -> (c: Clip)
        ensures
            c == Clip::OwnBar,
    {
        Clip::OwnBar
    }
}

/// Where the media controls stand along the bar.
#[derive(Clone, Copy, Debug, PartialEq, Eq, Structural)]
pub enum MediaPosition {
    Start,
    End,
}

impl Default for MediaPosition {
    fn default() -> (m: MediaPosition)
        ensures
            m == MediaPosition::Start,
    {
        MediaPosition::Start
    }
}

/// A color without transparency.
#[derive(Clone, Copy, Debug, PartialEq, Eq, Structural)]
pub struct Rgb {
    pub r: F32,
    pub g: F32,
    pub b: F32,
}

impl Rgb {
    pub open spec fn same(self, other: Rgb) -> bool {
        self.r.same(other.r) && self.g.same(other.g) && self.b.same(other.b)
    }

    pub fn equals(&self, other: &Rgb) -> (res: bool)
        ensures
            res == self.same(*other),
    {
        self.r.equals(&other.r) && self.g.equals(&other.g) && self.b.equals(&other.b)
    }
}

/// A color with transparency.
#[derive(Clone, Copy, Debug, PartialEq, Eq, Structural)]
pub struct Rgba {
    pub r: F32,
    pub g: F32,
    pub b: F32,
    pub a: F32,
}

impl Rgba {
    pub open spec fn same(self, other: Rgba) -> bool {
        self.r.same(other.r) && self.g.same(other.g) && self.b.same(other.b) && self.a.same(
            other.a,
        )
    }

    pub fn equals(&self, other: &Rgba) -> (res: bool)
        ensures
            res == self.same(*other),
    {
        self.r.equals(&other.r) && self.g.equals(&other.g) && self.b.equals(&other.b)
            && self.a.equals(&other.a)
    }
}

pub open spec fn same_rgb(a: Option<Rgb>, b: Option<Rgb>) -> bool {
    match (a, b) {
        (Some(x), Some(y)) => x.same(y),
        (None, None) => true,
        _ => false,
    }
}

pub open spec fn same_rgba(a: Option<Rgba>, b: Option<Rgba>) -> bool {
    match (a, b) {
        (Some(x), Some(y)) => x.same(y),
        (None, None) => true,
        _ => false,
    }
}

pub open spec fn same_number(a: Option<F32>, b: Option<F32>) -> bool {
    match (a, b) {
        (Some(x), Some(y)) => x.same(y),
        (None, None) => true,
        _ => false,
    }
}

fn rgb_equals(a: &Option<Rgb>, b: &Option<Rgb>) -> (res: bool)
    ensures
        res == same_rgb(*a, *b),
{
    match (a, b) {
        (Some(x), Some(y)) => x.equals(y),
        (None, None) => true,
        _ => false,
    }
}

/// Both are absent, or both are the same color.
pub fn rgba_equals(a: &Option<Rgba>, b: &Option<Rgba>) -> (res: bool)
    ensures
        res == same_rgba(*a, *b),
{
    match (a, b) {
        (Some(x), Some(y)) => x.equals(y),
        (None, None) => true,
        _ => false,
    }
}

fn number_equals(a: &Option<F32>, b: &Option<F32>) -> (res: bool)
    ensures
        res == same_number(*a, *b),
{
    match (a, b) {
        (Some(x), Some(y)) => x.equals(y),
        (None, None) => true,
        _ => false,
    }
}

#[derive(Clone, Debug)]
pub struct Config {
    /// Thickness of the bar in logical pixels.
    pub size: u32,
    /// Screen edge the bar is attached to.
    pub edge: Edge,
    /// true: stretch along the full edge; false: shrink to content, centered.
    pub fill: bool,
    /// Slide off-screen when not hovered.
    pub autohide: bool,
    /// Round the bar corners that touch the screen edge.
    pub round_edge_corners: bool,
    /// Which reserved bar strips to crop out of workspace previews.
    pub clip: Clip,
    /// Show media controls.
    pub media_enabled: bool,
    /// Where the media controls appear along the bar.
    pub media_position: MediaPosition,
    /// Text that the preferred player's bus name contains; empty for none.
    pub preferred_player: String,
    /// Scrolling over the media controls changes the player's volume.
    pub media_volume_scroll: bool,
    // Theme overrides; `None` follows the panel.
    pub bg_color: Option<Rgba>,
    pub blur: Option<bool>,
    pub bar_radius: Option<u32>,
    pub active_border_color: Option<Rgb>,
    pub active_border_width: Option<F32>,
    pub hover_color: Option<Rgba>,
    pub item_radius: Option<u32>,
    pub text_color: Option<Rgb>,
}

impl Config {
    /// Equal in every entry.
    pub open spec fn same(self, other: Config) -> bool {
        &&& self.size == other.size
        &&& self.edge == other.edge
        &&& self.fill == other.fill
        &&& self.autohide == other.autohide
        &&& self.round_edge_corners == other.round_edge_corners
        &&& self.clip == other.clip
        &&& self.media_enabled == other.media_enabled
        &&& self.media_position == other.media_position
        &&& self.preferred_player@ == other.preferred_player@
        &&& self.media_volume_scroll == other.media_volume_scroll
        &&& same_rgba(self.bg_color, other.bg_color)
        &&& self.blur == other.blur
        &&& self.bar_radius == other.bar_radius
        &&& same_rgb(self.active_border_color, other.active_border_color)
        &&& same_number(self.active_border_width, other.active_border_width)
        &&& same_rgba(self.hover_color, other.hover_color)
        &&& self.item_radius == other.item_radius
        &&& same_rgb(self.text_color, other.text_color)
    }

    /// No theme override is set.
    pub open spec fn follows_panel(self) -> bool {
        &&& self.bg_color is None
        &&& self.blur is None
        &&& self.bar_radius is None
        &&& self.active_border_color is None
        &&& self.active_border_width is None
        &&& self.hover_color is None
        &&& self.item_radius is None
        &&& self.text_color is None
    }

    /// The configuration of a fresh installation.
    pub open spec fn initial(self) -> bool {
        &&& self.size == 256
        &&& self.edge == Edge::Right
        &&& self.fill
        &&& !self.autohide
        &&& self.round_edge_corners
        &&& self.clip == Clip::OwnBar
        &&& !self.media_enabled
        &&& self.media_position == MediaPosition::Start
        &&& self.preferred_player@ == Seq::<char>::empty()
        &&& self.media_volume_scroll
        &&& self.follows_panel()
    }

    pub fn equals(&self, other: &Config) -> (res: bool)
        ensures
            res == self.same(*other),
    {
        self.size == other.size && self.edge == other.edge && self.fill == other.fill
            && self.autohide == other.autohide && self.round_edge_corners
            == other.round_edge_corners && self.clip == other.clip && self.media_enabled
            == other.media_enabled && self.media_position == other.media_position && same_text(
            &self.preferred_player,
            &other.preferred_player,
        ) && self.media_volume_scroll == other.media_volume_scroll && rgba_equals(
            &self.bg_color,
            &other.bg_color,
        ) && self.blur == other.blur && self.bar_radius == other.bar_radius && rgb_equals(
            &self.active_border_color,
            &other.active_border_color,
        ) && number_equals(&self.active_border_width, &other.active_border_width) && rgba_equals(
            &self.hover_color,
            &other.hover_color,
        ) && self.item_radius == other.item_radius && rgb_equals(
            &self.text_color,
            &other.text_color,
        )
    }
}

impl Default for Config {
    fn default() -> (c: Config)
        ensures
            c.initial(),
    {
        Config {
            size: 256,
            edge: Edge::Right,
            fill: true,
            autohide: false,
            round_edge_corners: true,
            clip: Clip::OwnBar,
            media_enabled: false,
            media_position: MediaPosition::Start,
            preferred_player: String::new(),
            media_volume_scroll: true,
            bg_color: None,
            blur: None,
            bar_radius: None,
            active_border_color: None,
            active_border_width: None,
            hover_color: None,
            item_radius: None,
            text_color: None,
        }
    }
}

/// The outcome of reading the stored configuration.
pub enum Stored {
    /// The store could not be opened.
    Unavailable,
    /// Every entry was read.
    Complete(Config),
    /// Some entries could not be read and hold their defaults.
    Partial(Config),
}

/// The configuration to start with.
pub fn load(stored: Stored) -> (c: Config)
    ensures
        match stored {
            Stored::Unavailable => c.initial(),
            Stored::Complete(x) => c == x,
            Stored::Partial(x) => c == x,
        },
{
    match stored {
        Stored::Unavailable => Config::default(),
        Stored::Complete(x) => x,
        Stored::Partial(x) => x,
    }
}

/// The panel's background.
#[derive(Clone, Copy, Debug, PartialEq, Eq, Structural)]
pub enum PanelBackground {
    ThemeDefault,
    Dark,
    Light,
    Color(Rgb),
}

impl PanelBackground {
    pub open spec fn same(self, other: PanelBackground) -> bool {
        match (self, other) {
            (PanelBackground::Color(x), PanelBackground::Color(y)) => x.same(y),
            _ => self == other,
        }
    }

    pub fn equals(&self, other: &PanelBackground) -> (res: bool)
        ensures
            res == self.same(*other),
    {
        match (self, other) {
            (PanelBackground::Color(x), PanelBackground::Color(y)) => x.equals(y),
            (PanelBackground::ThemeDefault, PanelBackground::ThemeDefault) => true,
            (PanelBackground::Dark, PanelBackground::Dark) => true,
            (PanelBackground::Light, PanelBackground::Light) => true,
            _ => false,
        }
    }
}

/// The part of the panel's configuration that the bar's look follows.
#[derive(Clone, Copy, Debug, PartialEq, Eq, Structural)]
pub struct PanelTheme {
    pub background: PanelBackground,
    pub opacity: F32,
    pub border_radius: u32,
}

impl PanelTheme {
    pub open spec fn same(self, other: PanelTheme) -> bool {
        &&& self.background.same(other.background)
        &&& self.opacity.same(other.opacity)
        &&& self.border_radius == other.border_radius
    }

    pub fn equals(&self, other: &PanelTheme) -> (res: bool)
        ensures
            res == self.same(*other),
    {
        self.background.equals(&other.background) && self.opacity.equals(&other.opacity)
            && self.border_radius == other.border_radius
    }
}

impl Default for PanelTheme {
    fn default() -> (t: PanelTheme)
        ensures
            t.background == PanelBackground::ThemeDefault,
            t.opacity == F32::of_int(1),
            t.border_radius == 0,
    {
        PanelTheme {
            background: PanelBackground::ThemeDefault,
            opacity: F32::from_u64(1),
            border_radius: 0,
        }
    }
}

/// Whether the compositor blurs what lies behind the bar: the user's choice,
/// else as for the panel, where its theme is frosted and not fully transparent.
pub open spec fn blur_wanted(blur: Option<bool>, frosted: bool, opacity: F32) -> bool {
    match blur {
        Some(b) => b,
        None => frosted && (F32 { bits: 0x3a83_126f }).below(opacity),
    }
}

/// As `blur_wanted`; the least opacity that counts is 0.001.
pub fn blur_enabled(blur: Option<bool>, frosted: bool, opacity: F32) -> (b: bool)
    ensures
        b == blur_wanted(blur, frosted, opacity),
{
    match blur {
        Some(b) => b,
        None => {
            let least: F32 = F32 { bits: 0x3a83_126f };
            frosted && least.less(&opacity)
        },
    }
}

/// A surface with this anchor is attached to edge `e`.
pub open spec fn touches(a: Anchor, e: Edge) -> bool {
    match e {
        Edge::Top => a.top,
        Edge::Bottom => a.bottom,
        Edge::Left => a.left,
        Edge::Right => a.right,
    }
}

/// The edge on the other side of the screen.
pub open spec fn opposite(e: Edge) -> Edge {
    match e {
        Edge::Top => Edge::Bottom,
        Edge::Bottom => Edge::Top,
        Edge::Left => Edge::Right,
        Edge::Right => Edge::Left,
    }
}

/// A bar is attached to its own edge and not to the opposite one, whether it
/// stretches or not. One that stretches is attached to both edges at its ends as
/// well; one that does not is attached to nothing else, so that the anchors of
/// two different edges differ.
pub proof fn bars_are_attached_to_their_edge(e: Edge, f: Edge)
    ensures
        touches(e.alone(), e) && touches(e.along(), e),
        !touches(e.alone(), opposite(e)) && !touches(e.along(), opposite(e)),
        f != e ==> !touches(e.alone(), f),
        f != opposite(e) ==> touches(e.along(), f),
        f != e ==> e.alone() != f.alone() && e.along() != f.along(),
{
}

/// What the anchor functions return is attached to the edge they are asked
/// about, and not to the opposite one.
pub proof fn anchors_name_their_edge(e: Edge, stretching: Anchor, centered: Anchor)
    requires
        call_ensures(Edge::anchor, (e,), stretching),
        call_ensures(Edge::solo_anchor, (e,), centered),
    ensures
        touches(stretching, e) && touches(centered, e),
        !touches(stretching, opposite(e)) && !touches(centered, opposite(e)),
{
}

/// A stretching bar has its thickness across its edge and no fixed length along
/// it: opposite edges have one shape, and neighbours have it the other way round.
pub proof fn stretched_bars_lie_along_their_edge(e: Edge, f: Edge, size: u32)
    ensures
        e is Top || e is Bottom ==> e.stretched(size) == Some((None::<u32>, Some(size))),
        e is Left || e is Right ==> e.stretched(size) == Some((Some(size), None::<u32>)),
        (e.stretched(size) == f.stretched(size)) == (f == e || f == opposite(e)),
{
}

/// Configurations that count as equal agree in everything that is not a color or
/// a width, and in which colors and widths are set at all; and a configuration
/// without NaN in it equals itself.
pub proof fn equal_configurations_agree(a: Config, b: Config)
    ensures
        a.same(b) ==> {
            &&& a.size == b.size && a.edge == b.edge && a.fill == b.fill
            &&& a.autohide == b.autohide && a.round_edge_corners == b.round_edge_corners
            &&& a.clip == b.clip && a.blur == b.blur
            &&& a.media_enabled == b.media_enabled && a.media_position == b.media_position
            &&& a.preferred_player@ == b.preferred_player@
            &&& a.media_volume_scroll == b.media_volume_scroll
            &&& a.bar_radius == b.bar_radius && a.item_radius == b.item_radius
            &&& a.bg_color is None == b.bg_color is None
            &&& a.active_border_color is None == b.active_border_color is None
            &&& a.active_border_width is None == b.active_border_width is None
            &&& a.hover_color is None == b.hover_color is None
            &&& a.text_color is None == b.text_color is None
        },
        a.same(b) == b.same(a),
        a == b && a.follows_panel() ==> a.same(b),
{
}

/// Two colors that count as equal have equal channels, up to the sign of zero.
pub proof fn equal_colors_agree(a: Rgba, b: Rgba, c: Rgb, d: Rgb)
    ensures
        a.same(b) ==> a.r.rank() == b.r.rank() && a.g.rank() == b.g.rank() && a.b.rank()
            == b.b.rank() && a.a.rank() == b.a.rank(),
        c.same(d) ==> c.r.rank() == d.r.rank() && c.g.rank() == d.g.rank() && c.b.rank()
            == d.b.rank(),
        a.same(b) == b.same(a) && c.same(d) == d.same(c),
        !a.r.nan() && !a.g.nan() && !a.b.nan() && !a.a.nan() ==> a.same(a),
        !c.r.nan() && !c.g.nan() && !c.b.nan() ==> c.same(c),
{
}

/// The user's choice of blur stands whatever the theme is. Without one, only a
/// frosted theme blurs, and the more opaque of two panels blurs if the other does.
pub proof fn blur_follows_choice(choice: bool, frosted: bool, opacity: F32, more: F32)
    ensures
        blur_wanted(Some(choice), frosted, opacity) == choice,
        !frosted ==> !blur_wanted(None, frosted, opacity),
        blur_wanted(None, frosted, opacity) && !more.below(opacity) && !more.nan()
            ==> blur_wanted(None, frosted, more),
        blur_wanted(None, frosted, opacity) ==> opacity.rank() > 0,
{
}

/// Looks of the panel that count as equal have the same opacity and corners, and the
/// same background up to equal colors.
pub proof fn equal_looks_agree(a: PanelTheme, b: PanelTheme)
    ensures
        a.same(b) ==> a.border_radius == b.border_radius && a.opacity.rank() == b.opacity.rank()
            && a.background is ThemeDefault == b.background is ThemeDefault && a.background is Dark
            == b.background is Dark && a.background is Light == b.background is Light,
        a.same(b) && a.background is Color ==> a.background->Color_0.same(b.background->Color_0),
        a.same(b) == b.same(a),
        !a.opacity.nan() && !(a.background is Color) ==> a.same(a),
{
}

} // verus!
