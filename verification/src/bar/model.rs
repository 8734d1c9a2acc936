//! The state of the bar as a mathematical value, and how each event changes it.

use crate::backend::captures::{Cmd, WorkspaceInfo};
use crate::backend::media::player::{ArtSource, Control, PlayerState};
use crate::backend::power;
use crate::backend::strips;
use crate::bar::actions::{Act, Action, FilterView};
use crate::bar::geometry;
use crate::bar::geometry::{
    Output, Rectangle, Reserved, Thumbnail, Workspace, AUTOHIDE_WAIT,
};
use crate::config;
use crate::config::{Config, PanelTheme, SurfaceSize};
use crate::float::double::F64;
use crate::float::single::F32;
use crate::settings;
use crate::settings::SettingsMsg;
use crate::sort;
use crate::sort::Ranked;
use vstd::prelude::*;

verus! {

/// A bar on one output.
#[derive(Clone, Copy)]
pub struct LayerSurface {
    pub output: u64,
    pub last_size: SurfaceSize,
    pub hovered: bool,
    pub hidden: bool,
    /// Raised to invalidate pending hide timers.
    pub hide_generation: u64,
    /// Last pointer position, for context menu placement.
    pub cursor: (F32, F32),
}

#[derive(Clone, Debug)]
pub struct ContextMenu {
    pub id: u64,
    /// The workspace that the menu is about, with its name.
    pub workspace: Option<(u64, String)>,
}

#[derive(Clone, Debug)]
pub struct RenameDialog {
    pub id: u64,
    pub workspace: u64,
    pub value: String,
}

/// The media player that is shown.
#[derive(Clone, Debug)]
pub struct MediaState {
    pub info: PlayerState,
    /// The number of the decoded album art.
    pub art: Option<u64>,
    /// Album art is being fetched.
    pub art_pending: bool,
    /// How far long texts have moved on.
    pub marquee_offset: usize,
    /// The volume, while it is shown after a change.
    pub volume: Option<F64>,
}

/// What an output tells of itself.
#[derive(Clone, Debug)]
pub struct OutputInfo {
    pub name: Option<String>,
    pub logical_size: Option<(i32, i32)>,
}

#[derive(Clone, Debug)]
pub enum OutputEvent {
    Created(Option<OutputInfo>),
    InfoUpdate(OutputInfo),
    Removed,
}

/// What a probe surface reports.
#[derive(Clone, Debug)]
pub enum OverlapEvent {
    LayerAdd { identifier: String, namespace: String, exclusive: u32, rect: Rectangle },
    LayerRemove { identifier: String },
    Other,
}

#[derive(Clone, Debug)]
pub enum WaylandEvent {
    /// `alive` if the output's connection is still there.
    Output { event: OutputEvent, output: u64, alive: bool },
    /// A layer surface is gone.
    LayerDone(u64),
    /// A popup is gone.
    PopupDone(u64),
    OverlapNotify { overlap: OverlapEvent, id: u64 },
    Other,
}

/// A workspace as the backend lists it, with its outputs.
#[derive(Clone, Debug)]
pub struct Listed {
    pub outputs: Vec<u64>,
    pub info: WorkspaceInfo,
}

/// What the backend tells.
#[derive(Clone, Debug)]
pub enum BackendEvent {
    /// It takes commands from now on.
    CmdSender,
    Workspaces(Vec<Listed>),
    WorkspaceCapture(u64, Thumbnail),
}

#[derive(Debug)]
pub enum Msg {
    WaylandEvent(WaylandEvent),
    Wayland(BackendEvent),
    Config(Config),
    PanelTheme(PanelTheme),
    ActivateWorkspace(u64),
    /// Scrolled over the bar of an output by so many steps.
    OnScroll(u64, isize),
    BarEnter(u64),
    BarExit(u64),
    BarMove(u64, (F32, F32)),
    HideTimeout(u64, u64),
    OpenContextMenu(u64, Option<(u64, String)>),
    MenuRename,
    MenuSettings,
    RenameInput(String),
    RenameSubmit,
    RenameCancel,
    OpenSettings,
    Settings(SettingsMsg),
    CloseSettings,
    CloseWindow(u64),
    /// The player to show, with its album art if that is a file that could be
    /// read.
    Media(Option<PlayerState>, Option<u64>),
    MediaControl(Control),
    MediaRaise,
    /// Scrolled over the media controls by so many steps.
    MediaScroll(isize),
    /// The volume was changed, if it could be.
    MediaVolume(Option<F64>),
    /// The volume has been shown long enough; told by the timer of this
    /// generation.
    MediaVolumeHide(u64),
    /// Album art was fetched from an address, if it could be.
    MediaArt(String, Option<u64>),
    /// Long texts move on.
    MarqueeTick,
    Power(power::Event),
    Ignore,
}

/// The state of the bar.
#[verifier::ext_equal]
pub struct Model {
    pub config: Config,
    pub panel_theme: PanelTheme,
    pub frosted_panel: bool,
    /// The configuration can be written.
    pub store: bool,
    /// The settings dialog.
    pub window: Option<u64>,
    pub context_menu: Option<ContextMenu>,
    pub rename: Option<RenameDialog>,
    pub media: Option<MediaState>,
    /// Raised to invalidate pending timers that hide the volume.
    pub volume_generation: u64,
    pub layer_surfaces: Seq<(u64, LayerSurface)>,
    pub probe_surfaces: Seq<(u64, u64)>,
    pub reserved: Seq<Reserved>,
    pub outputs: Seq<Output>,
    pub workspaces: Seq<Workspace>,
    /// The compositor can be talked to.
    pub connected: bool,
    /// The backend takes commands.
    pub backend: bool,
    pub next_id: u64,
}

/// A state and the actions that led to it.
#[verifier::ext_equal]
pub struct Outcome {
    pub model: Model,
    pub acts: Seq<Act>,
}

/// How long a changed volume stays on display, in milliseconds.
pub const VOLUME_WAIT: u64 = 1500;

/// Volume steps of 5 per cent.
pub open spec fn volume_step(steps: isize) -> F64 {
    if steps > 0 {
        F64 { bits: 0x3fa9_9999_9999_999a }
    } else {
        F64 { bits: 0xbfa9_9999_9999_999a }
    }
}

/// A number brought into `low ..= high`.
pub open spec fn clamped(n: u32, low: u32, high: u32) -> u32 {
    if n < low {
        low
    } else if n > high {
        high
    } else {
        n
    }
}

/// A table with another entry for `key` in place of the ones that it has.
pub open spec fn replaced<V>(table: Seq<(u64, V)>, key: u64, value: V) -> Seq<(u64, V)> {
    table.map_values(
        |e: (u64, V)|
            if e.0 == key {
                (key, value)
            } else {
                e
            },
    )
}

/// A table without the entries for `key`.
pub open spec fn without<V>(table: Seq<(u64, V)>, key: u64) -> Seq<(u64, V)>
    decreases table.len(),
{
    if table.len() == 0 {
        Seq::empty()
    } else if table.last().0 == key {
        without(table.drop_last(), key)
    } else {
        without(table.drop_last(), key).push(table.last())
    }
}

/// The first surface that belongs to an output.
pub open spec fn surface_on(table: Seq<(u64, LayerSurface)>, output: u64) -> Option<u64>
    decreases table.len(),
{
    if table.len() == 0 {
        None
    } else if table[0].1.output == output {
        Some(table[0].0)
    } else {
        surface_on(table.skip(1), output)
    }
}

/// The first probe that belongs to an output.
pub open spec fn probe_on(table: Seq<(u64, u64)>, output: u64) -> Option<u64>
    decreases table.len(),
{
    if table.len() == 0 {
        None
    } else if table[0].1 == output {
        Some(table[0].0)
    } else {
        probe_on(table.skip(1), output)
    }
}

/// Which reserved strips are no longer there.
pub enum Gone {
    /// Those of an output.
    Output(u64),
    /// Those that a probe has reported.
    Probe(u64),
    /// The one that a probe has reported under this name.
    Entry(u64, String),
}

impl Gone {
    pub open spec fn takes(self, r: Reserved) -> bool {
        match self {
            Gone::Output(o) => r.output == o,
            Gone::Probe(p) => r.probe == p,
            Gone::Entry(p, name) => r.probe == p && r.identifier@ == name@,
        }
    }
}

/// The reserved strips that are still there.
pub open spec fn still_reserved(list: Seq<Reserved>, gone: Gone) -> Seq<Reserved>
    decreases list.len(),
{
    if list.len() == 0 {
        Seq::empty()
    } else if gone.takes(list.last()) {
        still_reserved(list.drop_last(), gone)
    } else {
        still_reserved(list.drop_last(), gone).push(list.last())
    }
}

/// The place of the first output with this handle.
pub open spec fn output_place(outputs: Seq<Output>, handle: u64) -> Option<int>
    decreases outputs.len(),
{
    if outputs.len() == 0 {
        None
    } else if outputs[0].handle == handle {
        Some(0)
    } else {
        match output_place(outputs.skip(1), handle) {
            Some(i) => Some(i + 1),
            None => None,
        }
    }
}

/// The output after it has told more of itself.
pub open spec fn informed(o: Output, info: OutputInfo) -> Output {
    Output {
        handle: o.handle,
        name: match info.name {
            Some(name) => name,
            None => o.name,
        },
        width: match info.logical_size {
            Some((w, _)) => w,
            None => o.width,
        },
        height: match info.logical_size {
            Some((_, h)) => h,
            None => o.height,
        },
    }
}

/// The place of the first workspace with this handle.
pub open spec fn workspace_place(list: Seq<Workspace>, handle: u64) -> Option<int>
    decreases list.len(),
{
    if list.len() == 0 {
        None
    } else if list[0].info.handle == handle {
        Some(0)
    } else {
        match workspace_place(list.skip(1), handle) {
            Some(i) => Some(i + 1),
            None => None,
        }
    }
}

/// The preview of a workspace.
pub open spec fn preview_of(list: Seq<Workspace>, handle: u64) -> Option<Thumbnail> {
    match workspace_place(list, handle) {
        Some(i) => list[i].img,
        None => None,
    }
}

/// `a` comes before `b` in lexicographic order.
pub open spec fn lex_below(a: Seq<u32>, b: Seq<u32>) -> bool
    decreases b.len(),
{
    if b.len() == 0 {
        false
    } else if a.len() == 0 {
        true
    } else {
        a[0] < b[0] || (a[0] == b[0] && lex_below(a.skip(1), b.skip(1)))
    }
}

proof fn lemma_lex_one_way(a: Seq<u32>, b: Seq<u32>)
    requires
        lex_below(a, b),
    ensures
        !lex_below(b, a),
    decreases b.len(),
{
    if a.len() > 0 && b.len() > 0 && a[0] == b[0] {
        lemma_lex_one_way(a.skip(1), b.skip(1));
    }
}

proof fn lemma_lex_chain(a: Seq<u32>, b: Seq<u32>, c: Seq<u32>)
    requires
        !lex_below(b, a),
        !lex_below(c, b),
    ensures
        !lex_below(c, a),
    decreases a.len(),
{
    if a.len() > 0 && b.len() > 0 && c.len() > 0 && a[0] == b[0] && b[0] == c[0] {
        lemma_lex_chain(a.skip(1), b.skip(1), c.skip(1));
    }
}

/// Whether `a` comes before `b` in lexicographic order.
fn lex_less(a: &Vec<u32>, b: &Vec<u32>) -> (res: bool)
    ensures
        res == lex_below(a@, b@),
{
    let mut i: usize = 0;
    assert(a@.skip(0) =~= a@);
    assert(b@.skip(0) =~= b@);
    while i < a.len() && i < b.len()
        invariant
            i <= a.len(),
            i <= b.len(),
            lex_below(a@, b@) == lex_below(a@.skip(i as int), b@.skip(i as int)),
        decreases a.len() - i,
    {
        if a[i] < b[i] {
            return true;
        }
        if a[i] > b[i] {
            return false;
        }
        assert(a@.skip(i as int).skip(1) =~= a@.skip(i + 1));
        assert(b@.skip(i as int).skip(1) =~= b@.skip(i + 1));
        i = i + 1;
    }
    i < b.len()
}

impl Ranked for Listed {
    open spec fn under(self, other: Listed) -> bool {
        lex_below(self.info.coordinates@, other.info.coordinates@)
    }

    proof fn one_way(a: Listed, b: Listed) {
        lemma_lex_one_way(a.info.coordinates@, b.info.coordinates@);
    }

    proof fn chain(a: Listed, b: Listed, c: Listed) {
        lemma_lex_chain(a.info.coordinates@, b.info.coordinates@, c.info.coordinates@);
    }

    fn ranks_under(&self, other: &Listed) -> (res: bool) {
        lex_less(&self.info.coordinates, &other.info.coordinates)
    }
}

/// The listed workspaces by their coordinates; those with the same coordinates
/// keep their order.
pub open spec fn by_coordinates(list: Seq<Listed>) -> Seq<Listed> {
    choose|sorted: Seq<Listed>| sort::stably_sorted(list, sorted)
}

/// The workspaces that are shown from now on: the listed ones by their
/// coordinates, each with the preview that it had.
pub open spec fn relisted(old: Seq<Workspace>, list: Seq<Listed>) -> Seq<Workspace> {
    by_coordinates(list).map_values(
        |l: Listed|
            Workspace {
                info: l.info,
                img: preview_of(old, l.info.handle),
                outputs: l.outputs,
            },
    )
}

/// The place of the active workspace.
pub open spec fn active_place(list: Seq<Workspace>) -> Option<int>
    decreases list.len(),
{
    if list.len() == 0 {
        None
    } else if list[0].info.active {
        Some(0)
    } else {
        match active_place(list.skip(1)) {
            Some(i) => Some(i + 1),
            None => None,
        }
    }
}

/// The workspace that scrolling leads to: so many places before the active one
/// among those of the output, round and round.
pub open spec fn scrolled_to(list: Seq<Workspace>, steps: isize) -> Option<u64> {
    match active_place(list) {
        Some(i) => if steps == 0 {
            None
        } else {
            Some(list[(i as isize).wrapping_sub(steps) as int % list.len() as int].info.handle)
        },
        None => None,
    }
}

/// No action.
pub open spec fn nothing() -> Seq<Act> {
    Seq::empty()
}

/// One action.
pub open spec fn one(a: Action) -> Seq<Act> {
    seq![a.act()]
}

impl Model {
    /// Every bar is hidden.
    pub open spec fn all_hidden(self) -> bool {
        self.config.autohide && self.layer_surfaces.len() > 0 && forall|i: int|
            0 <= i < self.layer_surfaces.len() ==> (#[trigger] self.layer_surfaces[i]).1.hidden
    }

    /// No preview is wanted: nobody would see it, or the settings dialog is
    /// open, whose redraws would feed a loop of captures and repaints.
    pub open spec fn paused(self) -> bool {
        self.window is Some || self.all_hidden()
    }

    /// What the backend is told of the bar. Previews are about twice as wide as
    /// the bar is thick, which covers their shape and dense screens.
    #[verifier::opaque]
    pub open spec fn filter(self) -> FilterView {
        FilterView {
            edge: self.config.edge,
            size: self.config.size,
            outputs: self.outputs.map_values(|o: Output| (o.handle, (o.width, o.height))),
            paused: self.paused(),
            preview_px: clamped(self.config.size.wrapping_mul(2), 128, 512),
            clips: self.outputs.map_values(
                |o: Output|
                    (
                        o.handle,
                        geometry::clips_on(
                            self.config.clip,
                            self.outputs,
                            self.reserved,
                            o.handle,
                        ),
                    ),
            ),
        }
    }

    /// Tell the backend where the bar is.
    pub open spec fn report(self) -> Seq<Act> {
        if self.backend {
            seq![Act::Report(self.filter())]
        } else {
            nothing()
        }
    }

    /// Send a command to the backend.
    pub open spec fn send(self, cmd: Cmd) -> Seq<Act> {
        if self.backend {
            one(Action::Send(cmd))
        } else {
            nothing()
        }
    }

    /// Width and height of a bar on an output.
    #[verifier::opaque]
    pub open spec fn size_on(self, output: u64) -> SurfaceSize {
        geometry::bar_size(
            self.config,
            self.outputs,
            self.reserved,
            self.workspaces,
            self.media is Some,
            output,
        )
    }

    /// The strip that bars keep free for themselves.
    pub open spec fn zone(self) -> i32 {
        if self.config.autohide {
            0
        } else {
            self.config.size as i32
        }
    }

    pub open spec fn blurred(self) -> bool {
        config::blur_wanted(self.config.blur, self.frosted_panel, self.panel_theme.opacity)
    }

    pub open spec fn blur(self, id: u64) -> Act {
        (Action::SetBlur { id, enabled: self.blurred() }).act()
    }

    /// Blur or unblur all bars.
    pub open spec fn blur_all(self) -> Seq<Act> {
        self.layer_surfaces.map_values(|e: (u64, LayerSurface)| self.blur(e.0))
    }

    pub open spec fn with_surface(self, id: u64, s: LayerSurface) -> Model {
        Model { layer_surfaces: replaced(self.layer_surfaces, id, s), ..self }
    }

    /// There are numbers left for the surfaces that one message can bring.
    pub open spec fn has_room(self) -> bool {
        self.next_id + self.outputs.len() + 2 <= u64::MAX
    }

    /// The state with nothing done.
    pub open spec fn still(self) -> Outcome {
        Outcome { model: self, acts: nothing() }
    }

    /// The new sizes that bars are given: those of the first `n` whose size has
    /// changed.
    pub open spec fn size_acts(self, n: int) -> Seq<Act>
        decreases n,
    {
        if n <= 0 {
            nothing()
        } else {
            let (id, s) = self.layer_surfaces[n - 1];
            let size = self.size_on(s.output);
            let rest = self.size_acts(n - 1);
            if s.last_size == size {
                rest
            } else {
                let to = match size {
                    Some(wh) => wh,
                    None => (None, None),
                };
                rest.push((Action::SetSize { id, to }).act())
            }
        }
    }

    /// Bars that are as long as their content are kept so.
    #[verifier::opaque]
    pub open spec fn resized(self) -> Outcome {
        if self.config.fill {
            self.still()
        } else {
            Outcome {
                model: Model {
                    layer_surfaces: self.layer_surfaces.map_values(
                        |e: (u64, LayerSurface)|
                            (e.0, LayerSurface { last_size: self.size_on(e.1.output), ..e.1 }),
                    ),
                    ..self
                },
                acts: self.size_acts(self.layer_surfaces.len() as int),
            }
        }
    }

    /// A bar on an output. One that hides itself does so after a while.
    pub open spec fn created(self, output: u64) -> Outcome {
        let id = self.next_id;
        let size = self.size_on(output);
        let surface = LayerSurface {
            output,
            last_size: size,
            hovered: false,
            hidden: false,
            hide_generation: if self.config.autohide {
                1
            } else {
                0
            },
            cursor: (F32 { bits: 0 }, F32 { bits: 0 }),
        };
        let create = Action::CreateBar {
            id,
            output,
            size,
            anchor: if self.config.fill {
                self.config.edge.along()
            } else {
                self.config.edge.alone()
            },
            exclusive_zone: self.zone(),
        };
        let hide = if self.config.autohide {
            one(Action::HideAfter { id, generation: 1, wait: AUTOHIDE_WAIT })
        } else {
            nothing()
        };
        Outcome {
            model: Model {
                layer_surfaces: self.layer_surfaces.push((id, surface)),
                next_id: (id + 1) as u64,
                ..self
            },
            acts: seq![create.act(), self.blur(id)] + hide,
        }
    }

    /// Slide a bar off the screen.
    pub open spec fn hidden(self, id: u64) -> Outcome {
        match strips::lookup(self.layer_surfaces, id) {
            Some(s) => {
                let next = self.with_surface(id, LayerSurface { hidden: true, ..s });
                Outcome {
                    model: next,
                    acts: next.report() + one(
                        Action::SetMargin {
                            id,
                            margin: geometry::hiding_margin(self.config.edge, self.config.size),
                        },
                    ),
                }
            },
            None => self.still(),
        }
    }

    /// Slide a bar back onto the screen.
    pub open spec fn revealed(self, id: u64) -> Outcome {
        let back = one(Action::SetMargin { id, margin: (0, 0, 0, 0) });
        match strips::lookup(self.layer_surfaces, id) {
            Some(s) => {
                let next = self.with_surface(
                    id,
                    LayerSurface {
                        hidden: false,
                        hide_generation: s.hide_generation.wrapping_add(1),
                        ..s
                    },
                );
                Outcome { model: next, acts: next.report() + back }
            },
            None => Outcome { model: self, acts: back },
        }
    }

    /// Hide a bar after a while, unless the pointer returns first.
    pub open spec fn scheduled(self, id: u64) -> Outcome {
        match strips::lookup(self.layer_surfaces, id) {
            Some(s) => {
                let generation = s.hide_generation.wrapping_add(1);
                Outcome {
                    model: self.with_surface(id, LayerSurface { hide_generation: generation, ..s }),
                    acts: one(Action::HideAfter { id, generation, wait: AUTOHIDE_WAIT }),
                }
            },
            None => self.still(),
        }
    }

    /// Hiding or not is put into effect on the first `n` bars.
    pub open spec fn autohide_on(self, n: int) -> Outcome
        decreases n,
    {
        if n <= 0 {
            self.still()
        } else {
            let rest = self.autohide_on(n - 1);
            let id = self.layer_surfaces[n - 1].0;
            let next = if self.config.autohide {
                rest.model.scheduled(id)
            } else {
                rest.model.revealed(id)
            };
            Outcome {
                model: next.model,
                acts: rest.acts + one(Action::SetZone { id, zone: self.zone() }) + next.acts,
            }
        }
    }

    /// Take the bar of an output away.
    pub open spec fn destroyed(self, output: u64) -> Outcome {
        match surface_on(self.layer_surfaces, output) {
            Some(id) => Outcome {
                model: Model { layer_surfaces: without(self.layer_surfaces, id), ..self },
                acts: one(Action::DestroySurface(id)),
            },
            None => self.still(),
        }
    }

    /// Bars on the first `n` outputs.
    pub open spec fn created_on(self, n: int) -> Outcome
        decreases n,
    {
        if n <= 0 {
            self.still()
        } else {
            let rest = self.created_on(n - 1);
            let next = rest.model.created(self.outputs[n - 1].handle);
            Outcome { model: next.model, acts: rest.acts + next.acts }
        }
    }

    /// All bars are made anew.
    #[verifier::opaque]
    pub open spec fn recreated(self) -> Outcome {
        let cleared = Model { layer_surfaces: Seq::empty(), ..self };
        let made = cleared.created_on(self.outputs.len() as int);
        Outcome {
            model: made.model,
            acts: self.layer_surfaces.map_values(
                |e: (u64, LayerSurface)| Action::DestroySurface(e.0).act(),
            ) + made.acts,
        }
    }

    /// A probe on an output.
    pub open spec fn probed(self, output: u64) -> Outcome {
        let id = self.next_id;
        Outcome {
            model: Model {
                probe_surfaces: self.probe_surfaces.push((id, output)),
                next_id: (id + 1) as u64,
                ..self
            },
            acts: one(Action::CreateProbe { id, output }),
        }
    }

    /// Open the settings dialog, unless it is open.
    pub open spec fn settings_opened(self) -> Outcome {
        if self.window is Some {
            self.still()
        } else {
            let id = self.next_id;
            let next = Model { window: Some(id), next_id: (id + 1) as u64, ..self };
            Outcome {
                model: next,
                acts: next.report() + one(
                    Action::CreateSettings { id, width: 520, height: 720 },
                ),
            }
        }
    }

    /// Close the settings dialog.
    pub open spec fn settings_closed(self) -> Outcome {
        match self.window {
            Some(id) => {
                let next = Model { window: None, ..self };
                Outcome { model: next, acts: next.report() + one(Action::DestroySurface(id)) }
            },
            None => self.still(),
        }
    }

    /// Close the context menu.
    pub open spec fn menu_closed(self) -> Outcome {
        match self.context_menu {
            Some(menu) => Outcome {
                model: Model { context_menu: None, ..self },
                acts: one(Action::DestroyPopup(menu.id)),
            },
            None => self.still(),
        }
    }

    /// Open a context menu where the pointer is.
    pub open spec fn menu_opened(self, parent: u64, workspace: Option<(u64, String)>) -> Outcome {
        let closed = self.menu_closed();
        match strips::lookup(self.layer_surfaces, parent) {
            Some(s) => {
                let id = self.next_id;
                Outcome {
                    model: Model {
                        context_menu: Some(ContextMenu { id, workspace }),
                        next_id: (id + 1) as u64,
                        ..self
                    },
                    acts: closed.acts + one(
                        Action::CreateMenu {
                            id,
                            parent,
                            width: 220,
                            height: if workspace is Some {
                                84
                            } else {
                                44
                            },
                            x: s.cursor.0.truncated(i32::MIN as int, i32::MAX as int) as i32,
                            y: s.cursor.1.truncated(i32::MIN as int, i32::MAX as int) as i32,
                        },
                    ),
                }
            },
            None => closed,
        }
    }

    /// Open the rename dialog, unless it is open.
    pub open spec fn rename_opened(self, workspace: u64, value: String) -> Outcome {
        if self.rename is Some {
            self.still()
        } else {
            let id = self.next_id;
            Outcome {
                model: Model {
                    rename: Some(RenameDialog { id, workspace, value }),
                    next_id: (id + 1) as u64,
                    ..self
                },
                acts: one(Action::CreateRename { id, width: 360, height: 150 }),
            }
        }
    }

    /// Close the rename dialog.
    pub open spec fn rename_closed(self) -> Outcome {
        match self.rename {
            Some(dialog) => Outcome {
                model: Model { rename: None, ..self },
                acts: one(Action::DestroySurface(dialog.id)),
            },
            None => self.still(),
        }
    }

    /// An output has appeared.
    pub open spec fn output_created(
        self,
        output: u64,
        name: String,
        size: (i32, i32),
    ) -> Outcome {
        let next = Model {
            outputs: self.outputs.push(
                Output { handle: output, name, width: size.0, height: size.1 },
            ),
            ..self
        };
        let bar = next.created(output);
        let probe = bar.model.probed(output);
        Outcome { model: probe.model, acts: next.report() + bar.acts + probe.acts }
    }

    /// An output has told more of itself.
    pub open spec fn output_informed(self, output: u64, info: OutputInfo) -> Outcome {
        let next = Model {
            outputs: match output_place(self.outputs, output) {
                Some(i) => self.outputs.update(i, informed(self.outputs[i], info)),
                None => self.outputs,
            },
            ..self
        };
        let resized = next.resized();
        Outcome { model: resized.model, acts: next.report() + resized.acts }
    }

    /// An output is gone, and with it what was reserved on it, its bar and its
    /// probe.
    pub open spec fn output_removed(self, output: u64) -> Outcome {
        let next = Model {
            outputs: match output_place(self.outputs, output) {
                Some(i) => self.outputs.remove(i),
                None => self.outputs,
            },
            reserved: still_reserved(self.reserved, Gone::Output(output)),
            ..self
        };
        let gone = next.destroyed(output);
        match probe_on(self.probe_surfaces, output) {
            Some(id) => Outcome {
                model: Model {
                    probe_surfaces: without(self.probe_surfaces, id),
                    ..gone.model
                },
                acts: next.report() + gone.acts + one(Action::DestroySurface(id)),
            },
            None => Outcome { model: gone.model, acts: next.report() + gone.acts },
        }
    }

    /// An output has told something.
    pub open spec fn on_output(self, event: OutputEvent, output: u64) -> Outcome {
        match event {
            OutputEvent::Created(Some(info)) => match (info.name, info.logical_size) {
                (Some(name), Some(size)) => self.output_created(output, name, size),
                _ => self.still(),
            },
            OutputEvent::Created(None) => self.still(),
            OutputEvent::InfoUpdate(info) => self.output_informed(output, info),
            OutputEvent::Removed => self.output_removed(output),
        }
    }

    /// A layer surface is gone.
    pub open spec fn on_layer_done(self, id: u64) -> Outcome {
        let closed = Model {
            window: if self.window == Some(id) {
                None
            } else {
                self.window
            },
            ..self
        };
        Outcome {
            model: Model {
                rename: match self.rename {
                    Some(dialog) => if dialog.id == id {
                        None
                    } else {
                        self.rename
                    },
                    None => None,
                },
                reserved: if strips::lookup(self.probe_surfaces, id) is Some {
                    still_reserved(self.reserved, Gone::Probe(id))
                } else {
                    self.reserved
                },
                probe_surfaces: without(self.probe_surfaces, id),
                layer_surfaces: without(self.layer_surfaces, id),
                ..closed
            },
            acts: if self.window == Some(id) {
                closed.report()
            } else {
                nothing()
            },
        }
    }

    /// A probe has reported something.
    pub open spec fn on_overlap(self, event: OverlapEvent, id: u64) -> Outcome {
        match strips::lookup(self.probe_surfaces, id) {
            Some(output) => match event {
                OverlapEvent::LayerAdd { identifier, namespace, exclusive, rect } => {
                    let added = Reserved {
                        probe: id,
                        identifier,
                        output,
                        namespace,
                        exclusive,
                        rect,
                    };
                    let next = Model {
                        reserved: still_reserved(
                            self.reserved,
                            Gone::Entry(id, identifier),
                        ).push(added),
                        ..self
                    };
                    let resized = next.resized();
                    Outcome { model: resized.model, acts: next.report() + resized.acts }
                },
                OverlapEvent::LayerRemove { identifier } => {
                    let left = still_reserved(self.reserved, Gone::Entry(id, identifier));
                    if left.len() == self.reserved.len() {
                        self.still()
                    } else {
                        let next = Model { reserved: left, ..self };
                        let resized = next.resized();
                        Outcome { model: resized.model, acts: next.report() + resized.acts }
                    }
                },
                OverlapEvent::Other => self.still(),
            },
            None => self.still(),
        }
    }

    /// The backend has told something.
    pub open spec fn on_backend(self, event: BackendEvent) -> Outcome {
        match event {
            BackendEvent::CmdSender => {
                let next = Model { backend: true, ..self };
                Outcome { model: next, acts: next.report() }
            },
            BackendEvent::Workspaces(list) => (Model {
                workspaces: relisted(self.workspaces, list@),
                ..self
            }).resized(),
            BackendEvent::WorkspaceCapture(handle, image) => match workspace_place(
                self.workspaces,
                handle,
            ) {
                Some(i) => (Model {
                    workspaces: self.workspaces.update(
                        i,
                        Workspace { img: Some(image), ..self.workspaces[i] },
                    ),
                    ..self
                }).still(),
                None => self.still(),
            },
        }
    }

    /// What is the same for every change of the configuration: the color
    /// pickers follow, and the media backend learns of another preference.
    pub open spec fn followed(self, old: Config) -> Seq<Act> {
        one(Action::SyncPickers) + if self.config.preferred_player@ == old.preferred_player@ {
            nothing()
        } else {
            one(Action::SetPreferred(self.config.preferred_player))
        }
    }

    /// The look or the crop has changed from what it was with `old`.
    #[verifier::opaque]
    pub open spec fn restyled(self, old: Config) -> Outcome {
        let c = self.config;
        let blurred = if c.blur != old.blur {
            self.blur_all()
        } else {
            nothing()
        };
        let hiding = if c.autohide != old.autohide {
            self.autohide_on(self.layer_surfaces.len() as int)
        } else {
            self.still()
        };
        let sized = if c.autohide != old.autohide || c.clip != old.clip {
            let resized = hiding.model.resized();
            Outcome { model: resized.model, acts: hiding.model.report() + resized.acts }
        } else {
            hiding.model.still()
        };
        Outcome { model: sized.model, acts: blurred + hiding.acts + sized.acts }
    }

    /// The configuration has changed. Another place or size of the bar takes new
    /// surfaces.
    pub open spec fn on_config(self, c: Config) -> Outcome {
        let old = self.config;
        if c.same(old) {
            self.still()
        } else {
            let next = Model { config: c, ..self };
            let rest = if c.size != old.size || c.edge != old.edge || c.fill != old.fill {
                let made = next.recreated();
                Outcome { model: made.model, acts: next.report() + made.acts }
            } else {
                next.restyled(old)
            };
            Outcome { model: rest.model, acts: next.followed(old) + rest.acts }
        }
    }

    /// The player to show has changed.
    pub open spec fn on_media(self, state: Option<PlayerState>, art: Option<u64>) -> Outcome {
        let next = Model {
            media: match state {
                Some(info) => Some(
                    MediaState {
                        info,
                        art: if info.art matches Some(ArtSource::Local(_)) {
                            art
                        } else {
                            None
                        },
                        art_pending: info.art matches Some(ArtSource::Remote(_)),
                        marquee_offset: 0,
                        volume: None,
                    },
                ),
                None => None,
            },
            ..self
        };
        let fetch = match state {
            Some(info) => match info.art {
                Some(ArtSource::Remote(url)) => one(Action::FetchArt(url)),
                _ => nothing(),
            },
            None => nothing(),
        };
        if self.config.media_enabled {
            let resized = next.resized();
            Outcome { model: resized.model, acts: fetch + resized.acts }
        } else {
            Outcome { model: next, acts: fetch }
        }
    }

    /// Change what is shown of the media player.
    pub open spec fn with_media(self, media: MediaState) -> Outcome {
        (Model { media: Some(media), ..self }).still()
    }

    /// What follows a message.
    pub open spec fn step(self, msg: Msg) -> Outcome {
        match msg {
            Msg::WaylandEvent(WaylandEvent::Output { event, output, alive }) => (Model {
                connected: self.connected || alive,
                ..self
            }).on_output(event, output),
            Msg::WaylandEvent(WaylandEvent::LayerDone(id)) => self.on_layer_done(id),
            Msg::WaylandEvent(WaylandEvent::PopupDone(id)) => match self.context_menu {
                Some(menu) => if menu.id == id {
                    (Model { context_menu: None, ..self }).still()
                } else {
                    self.still()
                },
                None => self.still(),
            },
            Msg::WaylandEvent(WaylandEvent::OverlapNotify { overlap, id }) => self.on_overlap(
                overlap,
                id,
            ),
            Msg::WaylandEvent(WaylandEvent::Other) => self.still(),
            Msg::Wayland(event) => self.on_backend(event),
            Msg::Config(c) => self.on_config(c),
            Msg::PanelTheme(theme) => if theme.same(self.panel_theme) {
                self.still()
            } else {
                let next = Model { panel_theme: theme, ..self };
                Outcome { model: next, acts: next.blur_all() }
            },
            Msg::ActivateWorkspace(handle) => Outcome {
                model: self,
                acts: self.send(Cmd::ActivateWorkspace(handle)),
            },
            Msg::OnScroll(output, steps) => Outcome {
                model: self,
                acts: match scrolled_to(geometry::shown_on(self.workspaces, output), steps) {
                    Some(handle) => self.send(Cmd::ActivateWorkspace(handle)),
                    None => nothing(),
                },
            },
            Msg::BarEnter(id) => match strips::lookup(self.layer_surfaces, id) {
                Some(s) => if self.config.autohide {
                    let next = self.with_surface(
                        id,
                        LayerSurface {
                            hovered: true,
                            hide_generation: s.hide_generation.wrapping_add(1),
                            ..s
                        },
                    );
                    if s.hidden {
                        next.revealed(id)
                    } else {
                        next.still()
                    }
                } else {
                    self.still()
                },
                None => self.still(),
            },
            Msg::BarExit(id) => match strips::lookup(self.layer_surfaces, id) {
                Some(s) => if self.config.autohide {
                    self.with_surface(id, LayerSurface { hovered: false, ..s }).scheduled(id)
                } else {
                    self.still()
                },
                None => self.still(),
            },
            Msg::HideTimeout(id, generation) => match strips::lookup(self.layer_surfaces, id) {
                Some(s) => if self.config.autohide && s.hide_generation == generation
                    && !s.hovered && !s.hidden {
                    self.hidden(id)
                } else {
                    self.still()
                },
                None => self.still(),
            },
            Msg::BarMove(id, point) => match strips::lookup(self.layer_surfaces, id) {
                Some(s) => self.with_surface(id, LayerSurface { cursor: point, ..s }).still(),
                None => self.still(),
            },
            Msg::OpenContextMenu(id, workspace) => if workspace is None
                && self.context_menu is Some {
                self.still()
            } else {
                self.menu_opened(id, workspace)
            },
            Msg::MenuRename => {
                let closed = self.menu_closed();
                match self.context_menu {
                    Some(ContextMenu { id: _, workspace: Some((handle, name)) }) => {
                        let opened = closed.model.rename_opened(handle, name);
                        Outcome { model: opened.model, acts: closed.acts + opened.acts }
                    },
                    _ => closed,
                }
            },
            Msg::MenuSettings => {
                let closed = self.menu_closed();
                let opened = closed.model.settings_opened();
                Outcome { model: opened.model, acts: closed.acts + opened.acts }
            },
            Msg::RenameInput(value) => match self.rename {
                Some(dialog) => (Model {
                    rename: Some(RenameDialog { value, ..dialog }),
                    ..self
                }).still(),
                None => self.still(),
            },
            Msg::RenameSubmit => {
                let closed = self.rename_closed();
                match self.rename {
                    Some(dialog) => Outcome {
                        model: closed.model,
                        acts: self.send(Cmd::RenameWorkspace(dialog.workspace, dialog.value))
                            + closed.acts,
                    },
                    None => closed,
                }
            },
            Msg::RenameCancel => self.rename_closed(),
            Msg::OpenSettings => self.settings_opened(),
            Msg::Settings(m) => Outcome {
                model: self,
                acts: if self.store {
                    settings::writes(
                        m,
                        self.blurred(),
                        self.panel_theme.border_radius,
                    ).map_values(|w: settings::Write| Action::Store(w).act())
                } else {
                    nothing()
                },
            },
            Msg::CloseSettings => self.settings_closed(),
            Msg::CloseWindow(id) => if self.window == Some(id) {
                self.settings_closed()
            } else {
                self.still()
            },
            Msg::Media(state, art) => self.on_media(state, art),
            Msg::MediaControl(control) => Outcome {
                model: self,
                acts: match self.media {
                    Some(media) => one(
                        Action::MediaControl { player: media.info.bus_name, control },
                    ),
                    None => nothing(),
                },
            },
            Msg::MediaRaise => Outcome {
                model: self,
                acts: match self.media {
                    Some(media) => one(Action::Raise(media.info.bus_name)) + self.send(
                        Cmd::ActivateToplevelByAppId(media.info.desktop_entry),
                    ),
                    None => nothing(),
                },
            },
            Msg::MediaScroll(steps) => Outcome {
                model: self,
                acts: match self.media {
                    Some(media) => if steps == 0 {
                        nothing()
                    } else {
                        one(
                            Action::AdjustVolume {
                                player: media.info.bus_name,
                                delta: volume_step(steps),
                            },
                        )
                    },
                    None => nothing(),
                },
            },
            Msg::MediaVolume(volume) => match (self.media, volume) {
                (Some(media), Some(_)) => {
                    let generation = self.volume_generation.wrapping_add(1);
                    Outcome {
                        model: Model {
                            media: Some(MediaState { volume, ..media }),
                            volume_generation: generation,
                            ..self
                        },
                        acts: one(Action::HideVolumeAfter { generation, wait: VOLUME_WAIT }),
                    }
                },
                _ => self.still(),
            },
            Msg::MediaVolumeHide(generation) => match self.media {
                Some(media) => if generation == self.volume_generation {
                    self.with_media(MediaState { volume: None, ..media })
                } else {
                    self.still()
                },
                None => self.still(),
            },
            Msg::MediaArt(url, image) => match self.media {
                Some(media) => match media.info.art {
                    Some(ArtSource::Remote(wanted)) => if wanted@ == url@ {
                        self.with_media(MediaState { art: image, art_pending: false, ..media })
                    } else {
                        self.still()
                    },
                    _ => self.still(),
                },
                None => self.still(),
            },
            Msg::MarqueeTick => match self.media {
                Some(media) => self.with_media(
                    MediaState {
                        marquee_offset: media.marquee_offset.wrapping_add(1),
                        ..media
                    },
                ),
                None => self.still(),
            },
            Msg::Power(_) => Outcome { model: self, acts: self.send(Cmd::RefreshCaptures) },
            Msg::Ignore => self.still(),
        }
    }
}

} // verus!
