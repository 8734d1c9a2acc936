//! The settings window: what its controls show, and what they write to the
//! configuration.

use crate::config::{Clip, Config, Edge, MediaPosition, Rgb, Rgba};
use crate::config;
use crate::float::single::F32;
use crate::text;
use vstd::prelude::*;

verus! {

/// The label of an edge in the list of positions.
pub fn edge_label(edge: Edge) -> (label: &'static str)
    ensures
        label@ == (match edge {
            Edge::Top => "Top"@,
            Edge::Bottom => "Bottom"@,
            Edge::Left => "Left"@,
            Edge::Right => "Right"@,
        }),
{
    match edge {
        Edge::Top => "Top",
        Edge::Bottom => "Bottom",
        Edge::Left => "Left",
        Edge::Right => "Right",
    }
}

/// The edges in the order of their list.
pub open spec fn edges() -> Seq<Edge> {
    seq![Edge::Top, Edge::Bottom, Edge::Left, Edge::Right]
}

/// The crops in the order of their list: "This bar", "All bars", "Nothing".
pub open spec fn crops() -> Seq<Clip> {
    seq![Clip::OwnBar, Clip::AllBars, Clip::Nothing]
}

/// The places of the media controls in the order of their list: "Start", "End".
pub open spec fn media_positions() -> Seq<MediaPosition> {
    seq![MediaPosition::Start, MediaPosition::End]
}

/// The entry of a list at a place that may be past its end.
pub open spec fn entry<T>(list: Seq<T>, i: usize) -> Option<T> {
    if i < list.len() {
        Some(list[i as int])
    } else {
        None
    }
}

/// The edge at a place of the list.
pub fn edge_at(i: usize) -> (edge: Option<Edge>)
    ensures
        edge == entry(edges(), i),
{
    match i {
        0 => Some(Edge::Top),
        1 => Some(Edge::Bottom),
        2 => Some(Edge::Left),
        3 => Some(Edge::Right),
        _ => None,
    }
}

/// The place of an edge in the list.
pub fn edge_index(edge: Edge) -> (i: usize)
    ensures
        i < edges().len(),
        edges()[i as int] == edge,
{
    match edge {
        Edge::Top => 0,
        Edge::Bottom => 1,
        Edge::Left => 2,
        Edge::Right => 3,
    }
}

/// The crop at a place of the list.
pub fn clip_at(i: usize) -> (clip: Option<Clip>)
    ensures
        clip == entry(crops(), i),
{
    match i {
        0 => Some(Clip::OwnBar),
        1 => Some(Clip::AllBars),
        2 => Some(Clip::Nothing),
        _ => None,
    }
}

/// The place of a crop in the list.
pub fn clip_index(clip: Clip) -> (i: usize)
    ensures
        i < crops().len(),
        crops()[i as int] == clip,
{
    match clip {
        Clip::OwnBar => 0,
        Clip::AllBars => 1,
        Clip::Nothing => 2,
    }
}

/// The label of a crop in the list.
pub fn clip_label(clip: Clip) -> (label: &'static str)
    ensures
        label@ == (match clip {
            Clip::OwnBar => "This bar"@,
            Clip::AllBars => "All bars"@,
            Clip::Nothing => "Nothing"@,
        }),
{
    match clip {
        Clip::OwnBar => "This bar",
        Clip::AllBars => "All bars",
        Clip::Nothing => "Nothing",
    }
}

/// The place of the media controls at a place of the list.
pub fn media_position_at(i: usize) -> (p: Option<MediaPosition>)
    ensures
        p == entry(media_positions(), i),
{
    match i {
        0 => Some(MediaPosition::Start),
        1 => Some(MediaPosition::End),
        _ => None,
    }
}

/// The place in the list of a place of the media controls.
pub fn media_position_index(p: MediaPosition) -> (i: usize)
    ensures
        i < media_positions().len(),
        media_positions()[i as int] == p,
{
    match p {
        MediaPosition::Start => 0,
        MediaPosition::End => 1,
    }
}

/// The label of a place of the media controls.
pub fn media_position_label(p: MediaPosition) -> (label: &'static str)
    ensures
        label@ == (match p {
            MediaPosition::Start => "Start"@,
            MediaPosition::End => "End"@,
        }),
{
    match p {
        MediaPosition::Start => "Start",
        MediaPosition::End => "End",
    }
}

/// The settings dialog.
pub struct SettingsState {
    /// Its surface, while it is open.
    pub window: Option<u64>,
}

impl SettingsState {
    /// A dialog that is not open.
    pub fn new() -> (s: SettingsState)
        ensures
            s.window is None,
    {
        SettingsState { window: None }
    }
}

/// What was done in a color picker.
#[derive(Clone, Copy, Debug, PartialEq, Eq, Structural)]
pub enum PickerUpdate {
    AppliedColor,
    ActionFinished,
    Reset,
    /// Anything that leaves the applied color as it is.
    Other,
}

/// Whether the picker's color is to be stored now. The picker takes its staged
/// color over when a drag ends, so the configuration must follow, or else the
/// picker would be set back to it.
pub fn is_commit(update: PickerUpdate) -> (res: bool)
    ensures
        res == !(update is Other),
{
    !matches!(update, PickerUpdate::Other)
}

/// An opaque color.
pub open spec fn opaque(c: Rgb) -> Rgba {
    Rgba { r: c.r, g: c.g, b: c.b, a: F32::of_int(1) }
}

/// A color without its transparency.
pub open spec fn solid(c: Rgba) -> Rgb {
    Rgb { r: c.r, g: c.g, b: c.b }
}

/// The color as a picker shows it.
pub fn rgb(c: Rgb) -> (res: Rgba)
    ensures
        res == opaque(c),
{
    Rgba { r: c.r, g: c.g, b: c.b, a: F32::from_u64(1) }
}

/// The color of a picker as it is stored.
pub fn to_rgb(c: Rgba) -> (res: Rgb)
    ensures
        res == solid(c),
{
    Rgb { r: c.r, g: c.g, b: c.b }
}

/// Whether a picker is to be made anew: it is not in use, and its color is not
/// the stored one.
pub fn sync_picker(
    active: bool,
    applied: Option<Rgba>,
    stored: Option<Rgba>,
) -> (renew: bool)
    ensures
        renew == (!active && !config::same_rgba(applied, stored)),
{
    !active && !config::rgba_equals(&applied, &stored)
}

/// The stored colors in the order of the pickers: background, border of the
/// active workspace, highlight, labels.
pub fn picker_colors(config: &Config) -> (colors: (
    Option<Rgba>,
    Option<Rgba>,
    Option<Rgba>,
    Option<Rgba>,
))
    ensures
        colors.0 == config.bg_color,
        colors.1 == (match config.active_border_color {
            Some(c) => Some(opaque(c)),
            None => None,
        }),
        colors.2 == config.hover_color,
        colors.3 == (match config.text_color {
            Some(c) => Some(opaque(c)),
            None => None,
        }),
{
    let border: Option<Rgba> = match config.active_border_color {
        Some(c) => Some(rgb(c)),
        None => None,
    };
    let label: Option<Rgba> = match config.text_color {
        Some(c) => Some(rgb(c)),
        None => None,
    };
    (config.bg_color, border, config.hover_color, label)
}

/// An entry of the configuration with its new value.
pub enum Write {
    Edge(Edge),
    Size(u32),
    Fill(bool),
    Autohide(bool),
    Clip(Clip),
    RoundEdgeCorners(bool),
    MediaEnabled(bool),
    MediaPosition(MediaPosition),
    PreferredPlayer(String),
    MediaVolumeScroll(bool),
    BgColor(Option<Rgba>),
    Blur(Option<bool>),
    BarRadius(Option<u32>),
    ActiveBorderColor(Option<Rgb>),
    ActiveBorderWidth(Option<F32>),
    HoverColor(Option<Rgba>),
    ItemRadius(Option<u32>),
    TextColor(Option<Rgb>),
}

impl Write {
    /// The name of the entry.
    pub open spec fn name(self) -> Seq<char> {
        match self {
            Write::Edge(_) => "edge"@,
            Write::Size(_) => "size"@,
            Write::Fill(_) => "fill"@,
            Write::Autohide(_) => "autohide"@,
            Write::Clip(_) => "clip"@,
            Write::RoundEdgeCorners(_) => "round_edge_corners"@,
            Write::MediaEnabled(_) => "media_enabled"@,
            Write::MediaPosition(_) => "media_position"@,
            Write::PreferredPlayer(_) => "preferred_player"@,
            Write::MediaVolumeScroll(_) => "media_volume_scroll"@,
            Write::BgColor(_) => "bg_color"@,
            Write::Blur(_) => "blur"@,
            Write::BarRadius(_) => "bar_radius"@,
            Write::ActiveBorderColor(_) => "active_border_color"@,
            Write::ActiveBorderWidth(_) => "active_border_width"@,
            Write::HoverColor(_) => "hover_color"@,
            Write::ItemRadius(_) => "item_radius"@,
            Write::TextColor(_) => "text_color"@,
        }
    }

    /// The name of the entry.
    pub fn key(&self) -> (key: &'static str)
        ensures
            key@ == self.name(),
    {
        match self {
            Write::Edge(_) => "edge",
            Write::Size(_) => "size",
            Write::Fill(_) => "fill",
            Write::Autohide(_) => "autohide",
            Write::Clip(_) => "clip",
            Write::RoundEdgeCorners(_) => "round_edge_corners",
            Write::MediaEnabled(_) => "media_enabled",
            Write::MediaPosition(_) => "media_position",
            Write::PreferredPlayer(_) => "preferred_player",
            Write::MediaVolumeScroll(_) => "media_volume_scroll",
            Write::BgColor(_) => "bg_color",
            Write::Blur(_) => "blur",
            Write::BarRadius(_) => "bar_radius",
            Write::ActiveBorderColor(_) => "active_border_color",
            Write::ActiveBorderWidth(_) => "active_border_width",
            Write::HoverColor(_) => "hover_color",
            Write::ItemRadius(_) => "item_radius",
            Write::TextColor(_) => "text_color",
        }
    }

    /// The configuration with this entry written.
    pub open spec fn stored_in(self, c: Config) -> Config {
        match self {
            Write::Edge(v) => Config { edge: v, ..c },
            Write::Size(v) => Config { size: v, ..c },
            Write::Fill(v) => Config { fill: v, ..c },
            Write::Autohide(v) => Config { autohide: v, ..c },
            Write::Clip(v) => Config { clip: v, ..c },
            Write::RoundEdgeCorners(v) => Config { round_edge_corners: v, ..c },
            Write::MediaEnabled(v) => Config { media_enabled: v, ..c },
            Write::MediaPosition(v) => Config { media_position: v, ..c },
            Write::PreferredPlayer(v) => Config { preferred_player: v, ..c },
            Write::MediaVolumeScroll(v) => Config { media_volume_scroll: v, ..c },
            Write::BgColor(v) => Config { bg_color: v, ..c },
            Write::Blur(v) => Config { blur: v, ..c },
            Write::BarRadius(v) => Config { bar_radius: v, ..c },
            Write::ActiveBorderColor(v) => Config { active_border_color: v, ..c },
            Write::ActiveBorderWidth(v) => Config { active_border_width: v, ..c },
            Write::HoverColor(v) => Config { hover_color: v, ..c },
            Write::ItemRadius(v) => Config { item_radius: v, ..c },
            Write::TextColor(v) => Config { text_color: v, ..c },
        }
    }
}

/// The configuration with all entries written, one after the other.
pub open spec fn stored_all(writes: Seq<Write>, c: Config) -> Config
    decreases writes.len(),
{
    if writes.len() == 0 {
        c
    } else {
        writes.last().stored_in(stored_all(writes.drop_last(), c))
    }
}

/// A color to start an override with: the one that the picker holds, else the
/// one that is shown without the override.
#[derive(Clone, Copy, Debug, PartialEq, Eq, Structural)]
pub struct Start {
    pub applied: Option<Rgba>,
    pub shown: Rgba,
}

impl Start {
    pub open spec fn color(self) -> Rgba {
        match self.applied {
            Some(c) => c,
            None => self.shown,
        }
    }

    pub fn pick(&self) -> (c: Rgba)
        ensures
            c == self.color(),
    {
        match self.applied {
            Some(c) => c,
            None => self.shown,
        }
    }
}

/// What the user did in the settings window.
#[derive(Clone, Debug)]
pub enum SettingsMsg {
    Edge(usize),
    Size(u32),
    Fill(bool),
    Autohide(bool),
    Clip(usize),
    RoundEdgeCorners(bool),
    MediaEnabled(bool),
    MediaPosition(usize),
    PreferredPlayer(String),
    MediaVolumeScroll(bool),
    OverrideBg(bool, Start),
    /// The color is the one that the picker holds after the update.
    BgPicker(PickerUpdate, Option<Rgba>),
    OverrideBlur(bool),
    Blur(bool),
    OverrideBarRadius(bool),
    BarRadius(u32),
    OverrideActiveBorderColor(bool, Start),
    ActiveBorderPicker(PickerUpdate, Option<Rgba>),
    OverrideActiveBorderWidth(bool),
    ActiveBorderWidth(u32),
    OverrideHover(bool, Start),
    HoverPicker(PickerUpdate, Option<Rgba>),
    /// With the small corner radius of the theme.
    OverrideItemRadius(bool, F32),
    ItemRadius(u32),
    OverrideText(bool, Start),
    TextPicker(PickerUpdate, Option<Rgba>),
    ResetAll,
}

/// The radius of item corners for a small corner radius of the theme.
pub open spec fn item_radius(x: F32) -> F32 {
    if x.below(F32::of_int(4)) {
        x
    } else {
        x.sum(F32::of_int(4))
    }
}

/// The radius of item corners for a small corner radius of the theme.
pub fn default_item_radius(x: F32) -> (r: F32)
    ensures
        r == item_radius(x),
{
    let four: F32 = F32::from_u64(4);
    if x.less(&four) {
        x
    } else {
        x.plus(&four)
    }
}

/// A value that is there if the user wants an override.
pub open spec fn custom<T>(on: bool, value: T) -> Option<T> {
    if on {
        Some(value)
    } else {
        None
    }
}

/// What a picker writes: its color, if it is to be stored and there is one.
pub open spec fn picked(update: PickerUpdate, color: Option<Rgba>) -> bool {
    !(update is Other) && color is Some
}

/// What is written to the configuration. `blur` is whether the bar is blurred
/// at the moment, `radius` the corner radius of the panel.
pub open spec fn writes(msg: SettingsMsg, blur: bool, radius: u32) -> Seq<Write> {
    match msg {
        SettingsMsg::Edge(i) => match entry(edges(), i) {
            Some(v) => seq![Write::Edge(v)],
            None => Seq::empty(),
        },
        SettingsMsg::Size(v) => seq![Write::Size(v)],
        SettingsMsg::Fill(v) => seq![Write::Fill(v)],
        SettingsMsg::Autohide(v) => seq![Write::Autohide(v)],
        SettingsMsg::Clip(i) => match entry(crops(), i) {
            Some(v) => seq![Write::Clip(v)],
            None => Seq::empty(),
        },
        SettingsMsg::RoundEdgeCorners(v) => seq![Write::RoundEdgeCorners(v)],
        SettingsMsg::MediaEnabled(v) => seq![Write::MediaEnabled(v)],
        SettingsMsg::MediaPosition(i) => match entry(media_positions(), i) {
            Some(v) => seq![Write::MediaPosition(v)],
            None => Seq::empty(),
        },
        SettingsMsg::PreferredPlayer(v) => seq![Write::PreferredPlayer(v)],
        SettingsMsg::MediaVolumeScroll(v) => seq![Write::MediaVolumeScroll(v)],
        SettingsMsg::OverrideBg(on, start) => seq![Write::BgColor(custom(on, start.color()))],
        SettingsMsg::BgPicker(u, c) => if picked(u, c) {
            seq![Write::BgColor(c)]
        } else {
            Seq::empty()
        },
        SettingsMsg::OverrideBlur(on) => seq![Write::Blur(custom(on, blur))],
        SettingsMsg::Blur(v) => seq![Write::Blur(Some(v))],
        SettingsMsg::OverrideBarRadius(on) => seq![Write::BarRadius(custom(on, radius))],
        SettingsMsg::BarRadius(v) => seq![Write::BarRadius(Some(v))],
        SettingsMsg::OverrideActiveBorderColor(on, start) => seq![
            Write::ActiveBorderColor(custom(on, solid(start.color()))),
        ],
        SettingsMsg::ActiveBorderPicker(u, c) => if picked(u, c) {
            seq![Write::ActiveBorderColor(Some(solid(c->0)))]
        } else {
            Seq::empty()
        },
        SettingsMsg::OverrideActiveBorderWidth(on) => seq![
            Write::ActiveBorderWidth(custom(on, F32::of_int(4))),
        ],
        SettingsMsg::ActiveBorderWidth(v) => seq![
            Write::ActiveBorderWidth(Some(F32::of_int(v as int))),
        ],
        SettingsMsg::OverrideHover(on, start) => seq![
            Write::HoverColor(custom(on, start.color())),
        ],
        SettingsMsg::HoverPicker(u, c) => if picked(u, c) {
            seq![Write::HoverColor(c)]
        } else {
            Seq::empty()
        },
        SettingsMsg::OverrideItemRadius(on, x) => seq![
            Write::ItemRadius(
                custom(on, item_radius(x).truncated(0, u32::MAX as int) as u32),
            ),
        ],
        SettingsMsg::ItemRadius(v) => seq![Write::ItemRadius(Some(v))],
        SettingsMsg::OverrideText(on, start) => seq![
            Write::TextColor(custom(on, solid(start.color()))),
        ],
        SettingsMsg::TextPicker(u, c) => if picked(u, c) {
            seq![Write::TextColor(Some(solid(c->0)))]
        } else {
            Seq::empty()
        },
        SettingsMsg::ResetAll => resets(),
    }
}

/// The writes that take back all overrides.
pub open spec fn resets() -> Seq<Write> {
    seq![
        Write::BgColor(None),
        Write::Blur(None),
        Write::BarRadius(None),
        Write::ActiveBorderColor(None),
        Write::ActiveBorderWidth(None),
        Write::HoverColor(None),
        Write::ItemRadius(None),
        Write::TextColor(None),
    ]
}

fn reset_all() -> (list: Vec<Write>)
    ensures
        list@ == resets(),
{
    let mut list: Vec<Write> = Vec::new();
    list.push(Write::BgColor(None));
    list.push(Write::Blur(None));
    list.push(Write::BarRadius(None));
    list.push(Write::ActiveBorderColor(None));
    list.push(Write::ActiveBorderWidth(None));
    list.push(Write::HoverColor(None));
    list.push(Write::ItemRadius(None));
    list.push(Write::TextColor(None));
    assert(list@ =~= resets());
    list
}

/// The single write of a message, if it makes one.
fn single_write(msg: SettingsMsg, blur: bool, radius: u32) -> (res: Option<Write>)
    requires
        !(msg is ResetAll),
    ensures
        writes(msg, blur, radius) == (match res {
            Some(w) => seq![w],
            None => Seq::empty(),
        }),
{
    match msg {
        SettingsMsg::Edge(i) => match edge_at(i) {
            Some(v) => Some(Write::Edge(v)),
            None => None,
        },
        SettingsMsg::Size(v) => Some(Write::Size(v)),
        SettingsMsg::Fill(v) => Some(Write::Fill(v)),
        SettingsMsg::Autohide(v) => Some(Write::Autohide(v)),
        SettingsMsg::Clip(i) => match clip_at(i) {
            Some(v) => Some(Write::Clip(v)),
            None => None,
        },
        SettingsMsg::RoundEdgeCorners(v) => Some(Write::RoundEdgeCorners(v)),
        SettingsMsg::MediaEnabled(v) => Some(Write::MediaEnabled(v)),
        SettingsMsg::MediaPosition(i) => match media_position_at(i) {
            Some(v) => Some(Write::MediaPosition(v)),
            None => None,
        },
        SettingsMsg::PreferredPlayer(v) => Some(Write::PreferredPlayer(v)),
        SettingsMsg::MediaVolumeScroll(v) => Some(Write::MediaVolumeScroll(v)),
        SettingsMsg::OverrideBg(on, start) => Some(
            Write::BgColor(
                if on {
                    Some(start.pick())
                } else {
                    None
                },
            ),
        ),
        SettingsMsg::BgPicker(u, c) => if is_commit(u) && c.is_some() {
            Some(Write::BgColor(c))
        } else {
            None
        },
        SettingsMsg::OverrideBlur(on) => Some(
            Write::Blur(
                if on {
                    Some(blur)
                } else {
                    None
                },
            ),
        ),
        SettingsMsg::Blur(v) => Some(Write::Blur(Some(v))),
        SettingsMsg::OverrideBarRadius(on) => Some(
            Write::BarRadius(
                if on {
                    Some(radius)
                } else {
                    None
                },
            ),
        ),
        SettingsMsg::BarRadius(v) => Some(Write::BarRadius(Some(v))),
        SettingsMsg::OverrideActiveBorderColor(on, start) => Some(
            Write::ActiveBorderColor(
                if on {
                    Some(to_rgb(start.pick()))
                } else {
                    None
                },
            ),
        ),
        SettingsMsg::ActiveBorderPicker(u, c) => match c {
            Some(color) => if is_commit(u) {
                Some(Write::ActiveBorderColor(Some(to_rgb(color))))
            } else {
                None
            },
            None => None,
        },
        SettingsMsg::OverrideActiveBorderWidth(on) => Some(
            Write::ActiveBorderWidth(
                if on {
                    Some(F32::from_u64(4))
                } else {
                    None
                },
            ),
        ),
        SettingsMsg::ActiveBorderWidth(v) => Some(
            Write::ActiveBorderWidth(Some(F32::from_u64(v as u64))),
        ),
        SettingsMsg::OverrideHover(on, start) => Some(
            Write::HoverColor(
                if on {
                    Some(start.pick())
                } else {
                    None
                },
            ),
        ),
        SettingsMsg::HoverPicker(u, c) => if is_commit(u) && c.is_some() {
            Some(Write::HoverColor(c))
        } else {
            None
        },
        SettingsMsg::OverrideItemRadius(on, x) => Some(
            Write::ItemRadius(
                if on {
                    Some(default_item_radius(x).to_u32())
                } else {
                    None
                },
            ),
        ),
        SettingsMsg::ItemRadius(v) => Some(Write::ItemRadius(Some(v))),
        SettingsMsg::OverrideText(on, start) => Some(
            Write::TextColor(
                if on {
                    Some(to_rgb(start.pick()))
                } else {
                    None
                },
            ),
        ),
        SettingsMsg::TextPicker(u, c) => match c {
            Some(color) => if is_commit(u) {
                Some(Write::TextColor(Some(to_rgb(color))))
            } else {
                None
            },
            None => None,
        },
        SettingsMsg::ResetAll => None,
    }
}

/// What is written to the configuration.
pub fn update(msg: SettingsMsg, blur: bool, radius: u32) -> (list: Vec<Write>)
    ensures
        list@ == writes(msg, blur, radius),
{
    match msg {
        SettingsMsg::ResetAll => reset_all(),
        other => {
            let mut list: Vec<Write> = Vec::new();
            match single_write(other, blur, radius) {
                Some(w) => {
                    list.push(w);
                },
                None => {},
            }
            assert(list@ =~= writes(other, blur, radius));
            list
        },
    }
}

/// Resetting takes back every override and touches nothing else.
pub proof fn reset_follows_panel(c: Config)
    ensures
        stored_all(resets(), c).follows_panel(),
        stored_all(resets(), c) == (Config {
            bg_color: None,
            blur: None,
            bar_radius: None,
            active_border_color: None,
            active_border_width: None,
            hover_color: None,
            item_radius: None,
            text_color: None,
            ..c
        }),
{
    let r = resets();
    reveal_with_fuel(stored_all, 9);
    assert(r.take(8) =~= r);
    assert(r.drop_last() =~= r.take(7));
    assert(r.take(7).drop_last() =~= r.take(6));
    assert(r.take(6).drop_last() =~= r.take(5));
    assert(r.take(5).drop_last() =~= r.take(4));
    assert(r.take(4).drop_last() =~= r.take(3));
    assert(r.take(3).drop_last() =~= r.take(2));
    assert(r.take(2).drop_last() =~= r.take(1));
    assert(r.take(1).drop_last() =~= r.take(0));
}

/// Switching an override on does not change how the bar looks: what is stored
/// is what was shown.
pub proof fn overrides_start_from_what_is_shown(c: Config, blur: bool, radius: u32, shown: Rgba)
    ensures
        stored_all(writes(SettingsMsg::OverrideBlur(true), blur, radius), c).blur == Some(blur),
        stored_all(writes(SettingsMsg::OverrideBarRadius(true), blur, radius), c).bar_radius
            == Some(radius),
        stored_all(
            writes(SettingsMsg::OverrideBg(true, Start { applied: None, shown }), blur, radius),
            c,
        ).bg_color == Some(shown),
{
    reveal_with_fuel(stored_all, 2);
}

/// A slider that is there if its override is on.
#[derive(Clone, Copy, Debug, PartialEq, Eq, Structural)]
pub struct SliderRow {
    pub custom: bool,
    pub value: u32,
    pub low: u32,
    pub high: u32,
}

/// A color button that is there if its override is on, with the picker while it
/// is in use.
#[derive(Clone, Copy, Debug, PartialEq, Eq, Structural)]
pub struct ColorRow {
    pub custom: bool,
    pub picker: bool,
}

/// What the media section shows while media controls are on.
pub struct MediaRows {
    pub position: usize,
    pub preferred_player: String,
    pub volume_scroll: bool,
}

/// Which color pickers are in use.
#[derive(Clone, Copy, Debug, PartialEq, Eq, Structural)]
pub struct ActivePickers {
    pub bg: bool,
    pub active_border: bool,
    pub hover: bool,
    pub text: bool,
}

/// What the settings window shows.
pub struct SettingsView {
    pub edge: usize,
    pub size: SliderRow,
    pub size_label: String,
    pub fill: bool,
    pub autohide: bool,
    pub clip: usize,
    pub media_enabled: bool,
    pub media: Option<MediaRows>,
    pub bg: ColorRow,
    pub blur: Option<bool>,
    pub bar_radius: SliderRow,
    pub round_edge_corners: bool,
    pub active_border: ColorRow,
    pub active_border_width: SliderRow,
    pub hover: ColorRow,
    pub item_radius: SliderRow,
    pub text: ColorRow,
}

/// The row of a color.
pub open spec fn color_row_of(custom: bool, active: bool) -> ColorRow {
    ColorRow { custom, picker: custom && active }
}

fn color_row(custom: bool, active: bool) -> (row: ColorRow)
    ensures
        row == color_row_of(custom, active),
{
    ColorRow { custom, picker: custom && active }
}

/// A value, or the one that is shown without an override.
pub open spec fn or_else(value: Option<u32>, shown: u32) -> u32 {
    match value {
        Some(v) => v,
        None => shown,
    }
}

fn slider_row(value: Option<u32>, shown: u32, low: u32, high: u32) -> (row: SliderRow)
    ensures
        row == (SliderRow { custom: value is Some, value: or_else(value, shown), low, high }),
{
    match value {
        Some(v) => SliderRow { custom: true, value: v, low, high },
        None => SliderRow { custom: false, value: shown, low, high },
    }
}

/// What the settings window shows.
pub fn view(config: &Config, active: &ActivePickers) -> (v: SettingsView)
    ensures
        v.edge < edges().len() && edges()[v.edge as int] == config.edge,
        v.size == (SliderRow { custom: true, value: config.size, low: 64, high: 512 }),
        v.size_label@ == text::decimal(config.size as nat) + " px"@,
        v.fill == config.fill,
        v.autohide == config.autohide,
        v.clip < crops().len() && crops()[v.clip as int] == config.clip,
        v.media_enabled == config.media_enabled,
        v.media is Some == config.media_enabled,
        v.media matches Some(rows) ==> {
            &&& rows.position < media_positions().len()
            &&& media_positions()[rows.position as int] == config.media_position
            &&& rows.preferred_player@ == config.preferred_player@
            &&& rows.volume_scroll == config.media_volume_scroll
        },
        v.bg == color_row_of(config.bg_color is Some, active.bg),
        v.blur == config.blur,
        v.bar_radius == (SliderRow {
            custom: config.bar_radius is Some,
            value: or_else(config.bar_radius, 0),
            low: 0,
            high: 64,
        }),
        v.round_edge_corners == config.round_edge_corners,
        v.active_border == color_row_of(config.active_border_color is Some, active.active_border),
        v.active_border_width.custom == (config.active_border_width is Some),
        v.active_border_width.value == (match config.active_border_width {
            Some(w) => w,
            None => F32::of_int(4),
        }).truncated(0, u32::MAX as int),
        v.active_border_width.low == 1 && v.active_border_width.high == 16,
        v.hover == color_row_of(config.hover_color is Some, active.hover),
        v.item_radius == (SliderRow {
            custom: config.item_radius is Some,
            value: or_else(config.item_radius, 8),
            low: 0,
            high: 64,
        }),
        v.text == color_row_of(config.text_color is Some, active.text),
{
    let media: Option<MediaRows> = if config.media_enabled {
        Some(
            MediaRows {
                position: media_position_index(config.media_position),
                preferred_player: config.preferred_player.clone(),
                volume_scroll: config.media_volume_scroll,
            },
        )
    } else {
        None
    };
    let width: F32 = match config.active_border_width {
        Some(w) => w,
        None => F32::from_u64(4),
    };
    SettingsView {
        edge: edge_index(config.edge),
        size: SliderRow { custom: true, value: config.size, low: 64, high: 512 },
        size_label: text::concat(&text::decimal_of(config.size as u64), " px"),
        fill: config.fill,
        autohide: config.autohide,
        clip: clip_index(config.clip),
        media_enabled: config.media_enabled,
        media,
        bg: color_row(config.bg_color.is_some(), active.bg),
        blur: config.blur,
        bar_radius: slider_row(config.bar_radius, 0, 0, 64),
        round_edge_corners: config.round_edge_corners,
        active_border: color_row(config.active_border_color.is_some(), active.active_border),
        active_border_width: SliderRow {
            custom: config.active_border_width.is_some(),
            value: width.to_u32(),
            low: 1,
            high: 16,
        },
        hover: color_row(config.hover_color.is_some(), active.hover),
        item_radius: slider_row(config.item_radius, 8, 0, 64),
        text: color_row(config.text_color.is_some(), active.text),
    }
}

/// What a message leaves of the configuration: nothing but the entry that it is
/// about has changed, and that has the value that was chosen.
#[verifier::spinoff_prover]
#[verifier::rlimit(40)]
pub proof fn messages_change_their_entry(c: Config, msg: SettingsMsg, blur: bool, radius: u32)
    ensures
        ({
            let n = stored_all(writes(msg, blur, radius), c);
            match msg {
                SettingsMsg::Edge(i) => {
                    &&& n == Config { edge: n.edge, ..c }
                    &&& i == 0 ==> n.edge is Top
                    &&& i == 1 ==> n.edge is Bottom
                    &&& i == 2 ==> n.edge is Left
                    &&& i == 3 ==> n.edge is Right
                    &&& i > 3 ==> n == c
                },
                SettingsMsg::Size(v) => n == Config { size: v, ..c },
                SettingsMsg::Fill(v) => n == Config { fill: v, ..c },
                SettingsMsg::Autohide(v) => n == Config { autohide: v, ..c },
                SettingsMsg::Clip(i) => {
                    &&& n == Config { clip: n.clip, ..c }
                    &&& i == 0 ==> n.clip is OwnBar
                    &&& i == 1 ==> n.clip is AllBars
                    &&& i == 2 ==> n.clip is Nothing
                    &&& i > 2 ==> n == c
                },
                SettingsMsg::RoundEdgeCorners(v) => n == Config { round_edge_corners: v, ..c },
                SettingsMsg::MediaEnabled(v) => n == Config { media_enabled: v, ..c },
                SettingsMsg::MediaPosition(i) => {
                    &&& n == Config { media_position: n.media_position, ..c }
                    &&& i == 0 ==> n.media_position is Start
                    &&& i == 1 ==> n.media_position is End
                    &&& i > 1 ==> n == c
                },
                SettingsMsg::PreferredPlayer(v) => n == Config { preferred_player: v, ..c },
                SettingsMsg::MediaVolumeScroll(v) => n == Config { media_volume_scroll: v, ..c },
                SettingsMsg::Blur(v) => n == Config { blur: Some(v), ..c },
                SettingsMsg::BarRadius(v) => n == Config { bar_radius: Some(v), ..c },
                SettingsMsg::ActiveBorderWidth(v) => n == Config {
                    active_border_width: Some(F32::of_int(v as int)),
                    ..c
                },
                SettingsMsg::ItemRadius(v) => n == Config { item_radius: Some(v), ..c },
                SettingsMsg::OverrideBg(on, _) => {
                    &&& n == Config { bg_color: n.bg_color, ..c }
                    &&& n.bg_color is Some == on
                },
                SettingsMsg::OverrideBlur(on) => {
                    &&& n == Config { blur: n.blur, ..c }
                    &&& n.blur is Some == on
                },
                SettingsMsg::OverrideBarRadius(on) => {
                    &&& n == Config { bar_radius: n.bar_radius, ..c }
                    &&& n.bar_radius is Some == on
                },
                SettingsMsg::OverrideActiveBorderColor(on, _) => {
                    &&& n == Config { active_border_color: n.active_border_color, ..c }
                    &&& n.active_border_color is Some == on
                },
                SettingsMsg::OverrideActiveBorderWidth(on) => {
                    &&& n == Config { active_border_width: n.active_border_width, ..c }
                    &&& n.active_border_width is Some == on
                },
                SettingsMsg::OverrideHover(on, _) => {
                    &&& n == Config { hover_color: n.hover_color, ..c }
                    &&& n.hover_color is Some == on
                },
                SettingsMsg::OverrideItemRadius(on, _) => {
                    &&& n == Config { item_radius: n.item_radius, ..c }
                    &&& n.item_radius is Some == on
                },
                SettingsMsg::OverrideText(on, _) => {
                    &&& n == Config { text_color: n.text_color, ..c }
                    &&& n.text_color is Some == on
                },
                SettingsMsg::BgPicker(u, color) => n == if !(u is Other) && color is Some {
                    Config { bg_color: color, ..c }
                } else {
                    c
                },
                SettingsMsg::HoverPicker(u, color) => n == if !(u is Other) && color is Some {
                    Config { hover_color: color, ..c }
                } else {
                    c
                },
                SettingsMsg::ActiveBorderPicker(u, color) => {
                    &&& n == Config { active_border_color: n.active_border_color, ..c }
                    &&& u is Other || color is None ==> n == c
                    &&& !(u is Other) && color is Some ==> drawn_as(
                        n.active_border_color,
                        color->0,
                    )
                },
                SettingsMsg::TextPicker(u, color) => {
                    &&& n == Config { text_color: n.text_color, ..c }
                    &&& u is Other || color is None ==> n == c
                    &&& !(u is Other) && color is Some ==> drawn_as(n.text_color, color->0)
                },
                SettingsMsg::ResetAll => n.follows_panel() && n.size == c.size && n.edge == c.edge
                    && n.fill == c.fill && n.autohide == c.autohide && n.clip == c.clip,
            }
        }),
{
    let list = writes(msg, blur, radius);
    lemma_few_writes(list, c);
    if msg is ResetAll {
        reset_follows_panel(c);
    }
}

proof fn lemma_few_writes(list: Seq<Write>, c: Config)
    ensures
        list.len() == 0 ==> stored_all(list, c) == c,
        list.len() == 1 ==> stored_all(list, c) == list[0].stored_in(c),
{
    reveal_with_fuel(stored_all, 2);
}

/// A stored color is that of a picker, whose transparency is not stored.
pub open spec fn drawn_as(stored: Option<Rgb>, picked: Rgba) -> bool {
    stored matches Some(c) && c.r == picked.r && c.g == picked.g && c.b == picked.b
}

/// Switching an override on keeps the color that was shown, or the one that the
/// picker still holds from before.
pub proof fn color_overrides_start_from_what_is_shown(
    c: Config,
    blur: bool,
    radius: u32,
    start: Start,
)
    ensures
        ({
            let expected = if start.applied is Some {
                start.applied->0
            } else {
                start.shown
            };
            let bg = stored_all(writes(SettingsMsg::OverrideBg(true, start), blur, radius), c);
            let hover = stored_all(
                writes(SettingsMsg::OverrideHover(true, start), blur, radius),
                c,
            );
            let border = stored_all(
                writes(SettingsMsg::OverrideActiveBorderColor(true, start), blur, radius),
                c,
            );
            let label = stored_all(
                writes(SettingsMsg::OverrideText(true, start), blur, radius),
                c,
            );
            &&& bg.bg_color == Some(expected)
            &&& hover.hover_color == Some(expected)
            &&& drawn_as(border.active_border_color, expected)
            &&& drawn_as(label.text_color, expected)
        }),
{
    reveal_with_fuel(stored_all, 2);
}

/// The window shows what was stored: after a choice from a list the list stands at
/// that place, and a slider or switch at its value.
pub proof fn stored_settings_are_shown(
    c: Config,
    blur: bool,
    radius: u32,
    msg: SettingsMsg,
    active: ActivePickers,
    n: Config,
    v: SettingsView,
)
    requires
        n == stored_all(writes(msg, blur, radius), c),
        call_ensures(view, (&n, &active), v),
    ensures
        match msg {
            SettingsMsg::Edge(i) => i < 4 ==> v.edge == i,
            SettingsMsg::Size(x) => v.size.value == x,
            SettingsMsg::Fill(x) => v.fill == x,
            SettingsMsg::Autohide(x) => v.autohide == x,
            SettingsMsg::Clip(i) => i < 3 ==> v.clip == i,
            SettingsMsg::RoundEdgeCorners(x) => v.round_edge_corners == x,
            SettingsMsg::MediaEnabled(x) => v.media_enabled == x && v.media is Some == x,
            SettingsMsg::MediaPosition(i) => i < 2 && c.media_enabled ==> (v.media matches Some(
                rows,
            ) && rows.position == i),
            SettingsMsg::Blur(x) => v.blur == Some(x),
            SettingsMsg::BarRadius(x) => v.bar_radius.custom && v.bar_radius.value == x,
            SettingsMsg::ItemRadius(x) => v.item_radius.custom && v.item_radius.value == x,
            SettingsMsg::ActiveBorderWidth(x) => x <= 0x100_0000 ==> v.active_border_width.custom
                && v.active_border_width.value == x,
            SettingsMsg::OverrideBg(on, _) => v.bg.custom == on,
            SettingsMsg::OverrideHover(on, _) => v.hover.custom == on,
            SettingsMsg::OverrideText(on, _) => v.text.custom == on,
            SettingsMsg::OverrideActiveBorderColor(on, _) => v.active_border.custom == on,
            _ => true,
        },
{
    messages_change_their_entry(c, msg, blur, radius);
    if let SettingsMsg::ActiveBorderWidth(x) = msg {
        if x <= 0x100_0000 {
            crate::float::exact::whole_truncation(x as int, u32::MAX as int);
        }
    }
}

/// Items have the corners of the theme where these are sharp, and corners rounder
/// by four otherwise.
pub proof fn items_are_rounder(n: int)
    requires
        0 <= n <= 0xff_0000,
    ensures
        n < 4 ==> item_radius(F32::of_int(n)) == F32::of_int(n),
        n >= 4 ==> item_radius(F32::of_int(n)) == F32::of_int(n + 4),
{
    crate::float::bounds::whole_order(n, 4);
    crate::float::exact::whole_sums_are_exact(n, 4);
}

} // verus!
