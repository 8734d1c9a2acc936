//! The bar as it runs.

use crate::backend::captures::Cmd;
use crate::backend::media::player::{ArtSource, Control, PlayerState};
use crate::backend::pixels::Strips;
use crate::backend::strips::BarFilter;
use crate::bar::actions;
use crate::bar::actions::{append, Act, Action};
use crate::bar::geometry::{
    edge_clips, hidden_margin, surface_size, Margin, Output, Reserved, Workspace, AUTOHIDE_WAIT,
};
use crate::bar::identity;
use crate::bar::model;
use crate::bar::model::{
    BackendEvent, ContextMenu, Gone, LayerSurface, MediaState, Model, Msg, Outcome, OutputEvent,
    OutputInfo, OverlapEvent, RenameDialog, WaylandEvent, VOLUME_WAIT,
};
use crate::bar::tables;
use crate::config::{blur_enabled, Anchor, Config, PanelTheme, SurfaceSize};
use crate::float::double::F64;
use crate::float::single::F32;
use crate::settings;
use crate::settings::{SettingsState, Write};
use crate::text::same_text;
use vstd::prelude::*;

verus! {

pub struct App {
    pub config: Config,
    pub panel_theme: PanelTheme,
    pub frosted_panel: bool,
    /// The configuration can be written.
    pub store: bool,
    pub settings: SettingsState,
    pub context_menu: Option<ContextMenu>,
    pub rename: Option<RenameDialog>,
    pub media: Option<MediaState>,
    /// Raised to invalidate pending timers that hide the volume.
    pub volume_generation: u64,
    pub layer_surfaces: Vec<(u64, LayerSurface)>,
    /// Invisible surfaces that fill an output and report the others there.
    pub probe_surfaces: Vec<(u64, u64)>,
    pub reserved: Vec<Reserved>,
    pub outputs: Vec<Output>,
    pub workspaces: Vec<Workspace>,
    /// The compositor can be talked to.
    pub connected: bool,
    /// The backend takes commands.
    pub backend: bool,
    /// The number of the next surface.
    pub next_id: u64,
}

impl View for App {
    type V = Model;

    open spec fn view(&self) -> Model {
        Model {
            config: self.config,
            panel_theme: self.panel_theme,
            frosted_panel: self.frosted_panel,
            store: self.store,
            window: self.settings.window,
            context_menu: self.context_menu,
            rename: self.rename,
            media: self.media,
            volume_generation: self.volume_generation,
            layer_surfaces: self.layer_surfaces@,
            probe_surfaces: self.probe_surfaces@,
            reserved: self.reserved@,
            outputs: self.outputs@,
            workspaces: self.workspaces@,
            connected: self.connected,
            backend: self.backend,
            next_id: self.next_id,
        }
    }
}

/// From `before`, the bar has come to `after` and asked for what is in `out`
/// beyond `earlier`, as `outcome` says.
pub open spec fn went(
    after: Model,
    earlier: Seq<Action>,
    out: Seq<Action>,
    outcome: Outcome,
) -> bool {
    after == outcome.model && actions::acts(out) == actions::acts(earlier) + outcome.acts
}

impl App {
    /// Width and height of a bar on an output.
    fn surface_size(&self, output: u64) -> (size: SurfaceSize)
        ensures
            size == self@.size_on(output),
    {
        proof {
            reveal(Model::size_on);
        }
        surface_size(
            &self.config,
            &self.outputs,
            &self.reserved,
            &self.workspaces,
            self.media.is_some(),
            output,
        )
    }

    /// Whether the bar is blurred.
    pub fn blur_enabled(&self) -> (b: bool)
        ensures
            b == self@.blurred(),
    {
        blur_enabled(self.config.blur, self.frosted_panel, self.panel_theme.opacity)
    }

    fn zone(&self) -> (zone: i32)
        ensures
            zone == self@.zone(),
    {
        if self.config.autohide {
            0
        } else {
            self.config.size as i32
        }
    }

    fn all_hidden(&self) -> (b: bool)
        ensures
            b == self@.all_hidden(),
    {
        if !self.config.autohide || self.layer_surfaces.len() == 0 {
            return false;
        }
        let mut i: usize = 0;
        while i < self.layer_surfaces.len()
            invariant
                i <= self.layer_surfaces@.len(),
                forall|k: int| 0 <= k < i ==> (#[trigger] self.layer_surfaces@[k]).1.hidden,
            decreases self.layer_surfaces@.len() - i,
        {
            if !self.layer_surfaces[i].1.hidden {
                assert(!self@.layer_surfaces[i as int].1.hidden);
                return false;
            }
            i = i + 1;
        }
        true
    }

    fn filter(&self) -> (f: BarFilter)
        ensures
            actions::told(f) == self@.filter(),
    {
        proof {
            reveal(Model::filter);
        }
        let mut sizes: Vec<(u64, (i32, i32))> = Vec::new();
        let mut clips: Vec<(u64, Strips)> = Vec::new();
        let mut i: usize = 0;
        while i < self.outputs.len()
            invariant
                i <= self.outputs@.len(),
                sizes@ =~= self@.filter().outputs.take(i as int),
                clips@ =~= self@.filter().clips.take(i as int),
            decreases self.outputs@.len() - i,
        {
            proof {
                reveal(Model::filter);
            }
            let o: &Output = &self.outputs[i];
            sizes.push((o.handle, (o.width, o.height)));
            clips.push(
                (
                    o.handle,
                    edge_clips(self.config.clip, &self.outputs, &self.reserved, o.handle),
                ),
            );
            i = i + 1;
        }
        let wanted: u32 = self.config.size.wrapping_mul(2);
        let preview_px: u32 = if wanted < 128 {
            128
        } else if wanted > 512 {
            512
        } else {
            wanted
        };
        let paused: bool = self.settings.window.is_some() || self.all_hidden();
        assert(sizes@ =~= self@.filter().outputs);
        assert(clips@ =~= self@.filter().clips);
        BarFilter {
            edge: self.config.edge,
            size: self.config.size,
            outputs: sizes,
            paused,
            preview_px,
            clips,
        }
    }

    fn send_wayland_cmd(&self, cmd: Cmd, out: &mut Vec<Action>)
        requires
            !(cmd is BarFilter),
        ensures
            actions::acts(final(out)@) == actions::acts(old(out)@) + self@.send(cmd),
    {
        if self.backend {
            append(out, Action::Send(cmd));
        }
        assert(actions::acts(out@) =~= actions::acts(old(out)@) + self@.send(cmd));
    }

    /// Tell the backend where the bar is, so that repaints of the bar can be
    /// told from changes of the workspaces.
    fn send_bar_filter(&self, out: &mut Vec<Action>)
        ensures
            actions::acts(final(out)@) == actions::acts(old(out)@) + self@.report(),
    {
        if self.backend {
            let f: BarFilter = self.filter();
            append(out, Action::Send(Cmd::BarFilter(f)));
        }
        assert(actions::acts(out@) =~= actions::acts(old(out)@) + self@.report());
    }

    /// Keep bars that are as long as their content so.
    pub fn resize_surfaces(&mut self, out: &mut Vec<Action>)
        ensures
            went(final(self)@, old(out)@, final(out)@, old(self)@.resized()),
    {
        proof {
            reveal(Model::resized);
        }
        if self.config.fill {
            assert(actions::acts(out@) =~= actions::acts(old(out)@) + Seq::<Act>::empty());
            return;
        }
        let ghost start = self@;
        let ghost goal = self@.resized().model.layer_surfaces;
        let mut sized: Vec<(u64, LayerSurface)> = Vec::new();
        let mut i: usize = 0;
        assert(actions::acts(out@) =~= actions::acts(old(out)@) + start.size_acts(0));
        while i < self.layer_surfaces.len()
            invariant
                i <= self.layer_surfaces@.len(),
                self@ == start,
                !start.config.fill,
                goal == start.resized().model.layer_surfaces,
                sized@ =~= goal.take(i as int),
                actions::acts(out@) == actions::acts(old(out)@) + start.size_acts(i as int),
            decreases self.layer_surfaces@.len() - i,
        {
            proof {
                reveal(Model::resized);
            }
            let (id, s) = self.layer_surfaces[i];
            let size: SurfaceSize = self.surface_size(s.output);
            let ghost before = actions::acts(out@);
            if !tables::same_size(&s.last_size, &size) {
                let to: (Option<u32>, Option<u32>) = match size {
                    Some(wh) => wh,
                    None => (None, None),
                };
                append(out, Action::SetSize { id, to });
            }
            sized.push((id, LayerSurface { last_size: size, ..s }));
            assert(actions::acts(out@) =~= actions::acts(old(out)@) + start.size_acts(i + 1));
            i = i + 1;
        }
        assert(sized@ =~= goal);
        self.layer_surfaces = sized;
    }

    /// A bar on an output.
    fn create_surface(&mut self, output: u64, out: &mut Vec<Action>)
        requires
            old(self).next_id < u64::MAX,
        ensures
            went(final(self)@, old(out)@, final(out)@, old(self)@.created(output)),
    {
        let ghost start = self@;
        let size: SurfaceSize = self.surface_size(output);
        let id: u64 = self.next_id;
        self.next_id = id + 1;
        let anchor: Anchor = if self.config.fill {
            self.config.edge.anchor()
        } else {
            self.config.edge.solo_anchor()
        };
        append(
            out,
            Action::CreateBar { id, output, size, anchor, exclusive_zone: self.zone() },
        );
        append(out, Action::SetBlur { id, enabled: self.blur_enabled() });
        let mut generation: u64 = 0;
        if self.config.autohide {
            generation = 1;
            append(out, Action::HideAfter { id, generation, wait: AUTOHIDE_WAIT });
        }
        self.layer_surfaces.push(
            (
                id,
                LayerSurface {
                    output,
                    last_size: size,
                    hovered: false,
                    hidden: false,
                    hide_generation: generation,
                    cursor: (F32 { bits: 0 }, F32 { bits: 0 }),
                },
            ),
        );
        assert(actions::acts(out@) =~= actions::acts(old(out)@) + start.created(output).acts);
        assert(self@ =~= start.created(output).model);
    }

    /// Blur or unblur all bars.
    pub fn apply_blur_all(&self, out: &mut Vec<Action>)
        ensures
            actions::acts(final(out)@) == actions::acts(old(out)@) + self@.blur_all(),
    {
        let mut i: usize = 0;
        while i < self.layer_surfaces.len()
            invariant
                i <= self.layer_surfaces@.len(),
                actions::acts(out@) =~= actions::acts(old(out)@) + self@.blur_all().take(i as int),
            decreases self.layer_surfaces@.len() - i,
        {
            append(
                out,
                Action::SetBlur { id: self.layer_surfaces[i].0, enabled: self.blur_enabled() },
            );
            i = i + 1;
        }
        assert(self@.blur_all().take(self@.blur_all().len() as int) =~= self@.blur_all());
    }

    /// Slide a bar off the screen.
    fn hide_surface(&mut self, id: u64, out: &mut Vec<Action>)
        ensures
            went(final(self)@, old(out)@, final(out)@, old(self)@.hidden(id)),
    {
        let ghost start = self@;
        match tables::find(&self.layer_surfaces, id) {
            Some(s) => {
                tables::replace(
                    &mut self.layer_surfaces,
                    id,
                    LayerSurface { hidden: true, ..s },
                );
                self.send_bar_filter(out);
                let margin: Margin = hidden_margin(self.config.edge, self.config.size);
                append(out, Action::SetMargin { id, margin });
            },
            None => {},
        }
        assert(self@ =~= start.hidden(id).model);
        assert(actions::acts(out@) =~= actions::acts(old(out)@) + start.hidden(id).acts);
    }

    /// Slide a bar back onto the screen.
    fn reveal_surface(&mut self, id: u64, out: &mut Vec<Action>)
        ensures
            went(final(self)@, old(out)@, final(out)@, old(self)@.revealed(id)),
    {
        let ghost start = self@;
        match tables::find(&self.layer_surfaces, id) {
            Some(s) => {
                tables::replace(
                    &mut self.layer_surfaces,
                    id,
                    LayerSurface {
                        hidden: false,
                        hide_generation: s.hide_generation.wrapping_add(1),
                        ..s
                    },
                );
                self.send_bar_filter(out);
            },
            None => {},
        }
        append(out, Action::SetMargin { id, margin: (0, 0, 0, 0) });
        assert(self@ =~= start.revealed(id).model);
        assert(actions::acts(out@) =~= actions::acts(old(out)@) + start.revealed(id).acts);
    }

    /// Hide a bar after a while, unless the pointer returns first.
    fn schedule_hide(&mut self, id: u64, out: &mut Vec<Action>)
        ensures
            went(final(self)@, old(out)@, final(out)@, old(self)@.scheduled(id)),
    {
        let ghost start = self@;
        match tables::find(&self.layer_surfaces, id) {
            Some(s) => {
                let generation: u64 = s.hide_generation.wrapping_add(1);
                tables::replace(
                    &mut self.layer_surfaces,
                    id,
                    LayerSurface { hide_generation: generation, ..s },
                );
                append(out, Action::HideAfter { id, generation, wait: AUTOHIDE_WAIT });
            },
            None => {},
        }
        assert(self@ =~= start.scheduled(id).model);
        assert(actions::acts(out@) =~= actions::acts(old(out)@) + start.scheduled(id).acts);
    }

    /// Put hiding or not into effect on all bars.
    fn apply_autohide_all(&mut self, out: &mut Vec<Action>)
        ensures
            went(
                final(self)@,
                old(out)@,
                final(out)@,
                old(self)@.autohide_on(old(self)@.layer_surfaces.len() as int),
            ),
    {
        let ghost start = self@;
        let autohide: bool = self.config.autohide;
        let zone: i32 = self.zone();
        let count: usize = self.layer_surfaces.len();
        let mut i: usize = 0;
        assert(actions::acts(out@) =~= actions::acts(old(out)@) + start.autohide_on(0).acts);
        while i < count
            invariant
                i <= count,
                count == start.layer_surfaces.len(),
                autohide == start.config.autohide,
                zone == start.zone(),
                self@ == start.autohide_on(i as int).model,
                actions::acts(out@) == actions::acts(old(out)@) + start.autohide_on(i as int).acts,
            decreases count - i,
        {
            proof {
                lemma_autohide_keys(start, i as int);
            }
            let ghost rest = start.autohide_on(i as int);
            let ghost earlier = actions::acts(out@);
            let id: u64 = self.layer_surfaces[i].0;
            append(out, Action::SetZone { id, zone });
            let ghost middle = actions::acts(out@);
            if autohide {
                self.schedule_hide(id, out);
            } else {
                self.reveal_surface(id, out);
            }
            assert(actions::acts(out@) =~= actions::acts(old(out)@) + start.autohide_on(
                i + 1,
            ).acts);
            i = i + 1;
        }
    }

    /// Take the bar of an output away.
    fn destroy_surface(&mut self, output: u64, out: &mut Vec<Action>)
        ensures
            went(final(self)@, old(out)@, final(out)@, old(self)@.destroyed(output)),
    {
        let ghost start = self@;
        match tables::find_surface_on(&self.layer_surfaces, output) {
            Some(id) => {
                tables::take_out(&mut self.layer_surfaces, id);
                append(out, Action::DestroySurface(id));
            },
            None => {},
        }
        assert(self@ =~= start.destroyed(output).model);
        assert(actions::acts(out@) =~= actions::acts(old(out)@) + start.destroyed(output).acts);
    }

    /// Make all bars anew.
    fn recreate_surfaces(&mut self, out: &mut Vec<Action>)
        requires
            old(self).next_id + old(self).outputs@.len() <= u64::MAX,
        ensures
            went(final(self)@, old(out)@, final(out)@, old(self)@.recreated()),
    {
        proof {
            reveal(Model::recreated);
        }
        let ghost start = self@;
        let ghost gone = start.layer_surfaces.map_values(
            |e: (u64, LayerSurface)| Action::DestroySurface(e.0).act(),
        );
        let mut i: usize = 0;
        while i < self.layer_surfaces.len()
            invariant
                i <= self.layer_surfaces@.len(),
                self@ == start,
                gone == start.layer_surfaces.map_values(
                    |e: (u64, LayerSurface)| Action::DestroySurface(e.0).act(),
                ),
                actions::acts(out@) =~= actions::acts(old(out)@) + gone.take(i as int),
            decreases self.layer_surfaces@.len() - i,
        {
            append(out, Action::DestroySurface(self.layer_surfaces[i].0));
            i = i + 1;
        }
        assert(gone.take(gone.len() as int) =~= gone);
        self.layer_surfaces = Vec::new();
        let ghost cleared = Model { layer_surfaces: Seq::empty(), ..start };
        assert(self@ =~= cleared);
        let ghost earlier = actions::acts(out@);
        let count: usize = self.outputs.len();
        let mut k: usize = 0;
        assert(earlier + cleared.created_on(0).acts =~= earlier);
        while k < count
            invariant
                k <= count,
                count == cleared.outputs.len(),
                cleared.next_id + count <= u64::MAX,
                self@ == cleared.created_on(k as int).model,
                self.next_id == cleared.next_id + k,
                self.outputs@ == cleared.outputs,
                actions::acts(out@) == earlier + cleared.created_on(k as int).acts,
            decreases count - k,
        {
            let ghost before = out@;
            let output: u64 = self.outputs[k].handle;
            self.create_surface(output, out);
            assert(actions::acts(out@) =~= earlier + cleared.created_on(k + 1).acts);
            k = k + 1;
        }
        assert(actions::acts(out@) =~= actions::acts(old(out)@) + start.recreated().acts);
    }

    /// A probe on an output.
    fn create_probe(&mut self, output: u64, out: &mut Vec<Action>)
        requires
            old(self).next_id < u64::MAX,
        ensures
            went(final(self)@, old(out)@, final(out)@, old(self)@.probed(output)),
    {
        let ghost start = self@;
        let id: u64 = self.next_id;
        self.next_id = id + 1;
        self.probe_surfaces.push((id, output));
        append(out, Action::CreateProbe { id, output });
        assert(self@ =~= start.probed(output).model);
        assert(actions::acts(out@) =~= actions::acts(old(out)@) + start.probed(output).acts);
    }

    /// Open the settings dialog, unless it is open.
    pub fn open_settings(&mut self, out: &mut Vec<Action>)
        requires
            old(self).next_id < u64::MAX,
        ensures
            went(final(self)@, old(out)@, final(out)@, old(self)@.settings_opened()),
    {
        let ghost start = self@;
        if self.settings.window.is_none() {
            let id: u64 = self.next_id;
            self.next_id = id + 1;
            self.settings.window = Some(id);
            self.send_bar_filter(out);
            append(out, Action::CreateSettings { id, width: 520, height: 720 });
        }
        assert(self@ =~= start.settings_opened().model);
        assert(actions::acts(out@) =~= actions::acts(old(out)@) + start.settings_opened().acts);
    }

    fn close_settings(&mut self, out: &mut Vec<Action>)
        ensures
            went(final(self)@, old(out)@, final(out)@, old(self)@.settings_closed()),
    {
        let ghost start = self@;
        match self.settings.window {
            Some(id) => {
                self.settings.window = None;
                self.send_bar_filter(out);
                append(out, Action::DestroySurface(id));
            },
            None => {},
        }
        assert(self@ =~= start.settings_closed().model);
        assert(actions::acts(out@) =~= actions::acts(old(out)@) + start.settings_closed().acts);
    }

    /// Close the context menu; the workspace that it was about.
    fn close_context_menu(&mut self, out: &mut Vec<Action>) -> (workspace: Option<(u64, String)>)
        ensures
            went(final(self)@, old(out)@, final(out)@, old(self)@.menu_closed()),
            workspace == (match old(self).context_menu {
                Some(menu) => menu.workspace,
                None => None,
            }),
    {
        let ghost start = self@;
        let mut workspace: Option<(u64, String)> = None;
        match self.context_menu.take() {
            Some(menu) => {
                append(out, Action::DestroyPopup(menu.id));
                workspace = menu.workspace;
            },
            None => {},
        }
        assert(self@ =~= start.menu_closed().model);
        assert(actions::acts(out@) =~= actions::acts(old(out)@) + start.menu_closed().acts);
        workspace
    }

    /// Open a context menu where the pointer is.
    fn open_context_menu(
        &mut self,
        parent: u64,
        workspace: Option<(u64, String)>,
        out: &mut Vec<Action>,
    )
        requires
            old(self).next_id < u64::MAX,
        ensures
            went(final(self)@, old(out)@, final(out)@, old(self)@.menu_opened(parent, workspace)),
    {
        let ghost start = self@;
        let _ = self.close_context_menu(out);
        match tables::find(&self.layer_surfaces, parent) {
            Some(s) => {
                let id: u64 = self.next_id;
                self.next_id = id + 1;
                let height: u32 = if workspace.is_some() {
                    84
                } else {
                    44
                };
                let x: i32 = s.cursor.0.to_i32();
                let y: i32 = s.cursor.1.to_i32();
                self.context_menu = Some(ContextMenu { id, workspace });
                append(out, Action::CreateMenu { id, parent, width: 220, height, x, y });
            },
            None => {},
        }
        assert(self@ =~= start.menu_opened(parent, workspace).model);
        assert(actions::acts(out@) =~= actions::acts(old(out)@) + start.menu_opened(
            parent,
            workspace,
        ).acts);
    }

    /// Open the rename dialog, unless it is open.
    fn open_rename(&mut self, workspace: u64, value: String, out: &mut Vec<Action>)
        requires
            old(self).next_id < u64::MAX,
        ensures
            went(final(self)@, old(out)@, final(out)@, old(self)@.rename_opened(workspace, value)),
    {
        let ghost start = self@;
        if self.rename.is_none() {
            let id: u64 = self.next_id;
            self.next_id = id + 1;
            self.rename = Some(RenameDialog { id, workspace, value });
            append(out, Action::CreateRename { id, width: 360, height: 150 });
        }
        assert(self@ =~= start.rename_opened(workspace, value).model);
        assert(actions::acts(out@) =~= actions::acts(old(out)@) + start.rename_opened(
            workspace,
            value,
        ).acts);
    }

    fn close_rename(&mut self, out: &mut Vec<Action>)
        ensures
            went(final(self)@, old(out)@, final(out)@, old(self)@.rename_closed()),
    {
        let ghost start = self@;
        match self.rename.take() {
            Some(dialog) => {
                append(out, Action::DestroySurface(dialog.id));
            },
            None => {},
        }
        assert(self@ =~= start.rename_closed().model);
        assert(actions::acts(out@) =~= actions::acts(old(out)@) + start.rename_closed().acts);
    }
}

impl App {
    /// An output has appeared.
    fn output_created(
        &mut self,
        output: u64,
        name: String,
        size: (i32, i32),
        out: &mut Vec<Action>,
    )
        requires
            old(self)@.has_room(),
        ensures
            went(
                final(self)@,
                old(out)@,
                final(out)@,
                old(self)@.output_created(output, name, size),
            ),
    {
        let ghost start = self@;
        let ghost earlier = actions::acts(out@);
        self.outputs.push(Output { handle: output, name, width: size.0, height: size.1 });
        let ghost next = self@;
        self.send_bar_filter(out);
        self.create_surface(output, out);
        let ghost bar = next.created(output);
        assert(self@ == bar.model);
        self.create_probe(output, out);
        assert(actions::acts(out@) =~= earlier + start.output_created(output, name, size).acts);
    }

    /// An output has told more of itself.
    fn output_informed(&mut self, output: u64, info: OutputInfo, out: &mut Vec<Action>)
        ensures
            went(final(self)@, old(out)@, final(out)@, old(self)@.output_informed(output, info)),
    {
        let ghost start = self@;
        let ghost earlier = actions::acts(out@);
        match tables::place_of_output(&self.outputs, output) {
            Some(i) => {
                let ghost before = self.outputs@;
                match info.name {
                    Some(name) => {
                        self.outputs[i].name = name;
                    },
                    None => {},
                }
                match info.logical_size {
                    Some((width, height)) => {
                        self.outputs[i].width = width;
                        self.outputs[i].height = height;
                    },
                    None => {},
                }
                assert(self.outputs@ =~= before.update(
                    i as int,
                    model::informed(before[i as int], info),
                ));
            },
            None => {},
        }
        self.send_bar_filter(out);
        self.resize_surfaces(out);
        assert(actions::acts(out@) =~= earlier + start.output_informed(output, info).acts);
    }

    /// An output is gone.
    fn output_removed(&mut self, output: u64, out: &mut Vec<Action>)
        ensures
            went(final(self)@, old(out)@, final(out)@, old(self)@.output_removed(output)),
    {
        let ghost start = self@;
        let ghost earlier = actions::acts(out@);
        match tables::place_of_output(&self.outputs, output) {
            Some(i) => {
                let _ = self.outputs.remove(i);
            },
            None => {},
        }
        tables::drop_reserved(&mut self.reserved, &Gone::Output(output));
        let probe: Option<u64> = tables::find_probe_on(&self.probe_surfaces, output);
        let ghost next = self@;
        self.send_bar_filter(out);
        self.destroy_surface(output, out);
        match probe {
            Some(id) => {
                tables::take_out(&mut self.probe_surfaces, id);
                append(out, Action::DestroySurface(id));
            },
            None => {},
        }
        assert(actions::acts(out@) =~= earlier + start.output_removed(output).acts);
    }

    /// An output has told something.
    fn on_output(&mut self, event: OutputEvent, output: u64, out: &mut Vec<Action>)
        requires
            old(self)@.has_room(),
        ensures
            went(final(self)@, old(out)@, final(out)@, old(self)@.on_output(event, output)),
    {
        match event {
            OutputEvent::Created(info) => match info {
                Some(info) => match (info.name, info.logical_size) {
                    (Some(name), Some(size)) => {
                        self.output_created(output, name, size, out);
                    },
                    _ => {
                        assert(actions::acts(out@) =~= actions::acts(out@) + model::nothing());
                    },
                },
                None => {
                    assert(actions::acts(out@) =~= actions::acts(out@) + model::nothing());
                },
            },
            OutputEvent::InfoUpdate(info) => {
                self.output_informed(output, info, out);
            },
            OutputEvent::Removed => {
                self.output_removed(output, out);
            },
        }
    }

    /// A layer surface is gone.
    fn on_layer_done(&mut self, id: u64, out: &mut Vec<Action>)
        ensures
            went(final(self)@, old(out)@, final(out)@, old(self)@.on_layer_done(id)),
    {
        let ghost start = self@;
        let settings_gone: bool = match self.settings.window {
            Some(w) => w == id,
            None => false,
        };
        if settings_gone {
            self.settings.window = None;
            self.send_bar_filter(out);
        }
        let rename_gone: bool = match &self.rename {
            Some(dialog) => dialog.id == id,
            None => false,
        };
        if rename_gone {
            self.rename = None;
        }
        if tables::find(&self.probe_surfaces, id).is_some() {
            tables::drop_reserved(&mut self.reserved, &Gone::Probe(id));
        }
        tables::take_out(&mut self.probe_surfaces, id);
        tables::take_out(&mut self.layer_surfaces, id);
        assert(self@ =~= start.on_layer_done(id).model);
        assert(actions::acts(out@) =~= actions::acts(old(out)@) + start.on_layer_done(id).acts);
    }

    /// A probe has reported something.
    fn on_overlap(&mut self, event: OverlapEvent, id: u64, out: &mut Vec<Action>)
        ensures
            went(final(self)@, old(out)@, final(out)@, old(self)@.on_overlap(event, id)),
    {
        let ghost start = self@;
        match tables::find(&self.probe_surfaces, id) {
            Some(output) => match event {
                OverlapEvent::LayerAdd { identifier, namespace, exclusive, rect } => {
                    let gone: Gone = Gone::Entry(id, identifier.clone());
                    tables::drop_reserved(&mut self.reserved, &gone);
                    self.reserved.push(
                        Reserved { probe: id, identifier, output, namespace, exclusive, rect },
                    );
                    self.send_bar_filter(out);
                    self.resize_surfaces(out);
                },
                OverlapEvent::LayerRemove { identifier } => {
                    let before: usize = self.reserved.len();
                    let gone: Gone = Gone::Entry(id, identifier);
                    let ghost was = self.reserved@;
                    tables::drop_reserved(&mut self.reserved, &gone);
                    if self.reserved.len() != before {
                        self.send_bar_filter(out);
                        self.resize_surfaces(out);
                    } else {
                        proof {
                            lemma_none_dropped(was, gone);
                        }
                    }
                },
                OverlapEvent::Other => {},
            },
            None => {},
        }
        assert(self@ =~= start.on_overlap(event, id).model);
        assert(actions::acts(out@) =~= actions::acts(old(out)@) + start.on_overlap(
            event,
            id,
        ).acts);
    }

    /// The backend has told something.
    fn on_backend(&mut self, event: BackendEvent, out: &mut Vec<Action>)
        ensures
            went(final(self)@, old(out)@, final(out)@, old(self)@.on_backend(event)),
    {
        let ghost start = self@;
        match event {
            BackendEvent::CmdSender => {
                self.backend = true;
                self.send_bar_filter(out);
            },
            BackendEvent::Workspaces(list) => {
                let next: Vec<Workspace> = tables::relist(&self.workspaces, list);
                self.workspaces = next;
                self.resize_surfaces(out);
            },
            BackendEvent::WorkspaceCapture(handle, image) => {
                match tables::place_of_workspace(&self.workspaces, handle) {
                    Some(i) => {
                        let ghost before = self.workspaces@;
                        self.workspaces[i].img = Some(image);
                        assert(self.workspaces@ =~= before.update(
                            i as int,
                            Workspace { img: Some(image), ..before[i as int] },
                        ));
                    },
                    None => {},
                }
            },
        }
        assert(self@ =~= start.on_backend(event).model);
        assert(actions::acts(out@) =~= actions::acts(old(out)@) + start.on_backend(event).acts);
    }

    /// The look or the crop has changed.
    fn restyle(
        &mut self,
        blur_changed: bool,
        autohide_changed: bool,
        clip_changed: bool,
        out: &mut Vec<Action>,
        Ghost(old_config): Ghost<Config>,
    )
        requires
            blur_changed == (old(self).config.blur != old_config.blur),
            autohide_changed == (old(self).config.autohide != old_config.autohide),
            clip_changed == (old(self).config.clip != old_config.clip),
        ensures
            went(final(self)@, old(out)@, final(out)@, old(self)@.restyled(old_config)),
    {
        proof {
            reveal(Model::restyled);
        }
        let ghost start = self@;
        let ghost earlier = actions::acts(out@);
        if blur_changed {
            self.apply_blur_all(out);
        }
        let ghost blurred = if blur_changed {
            start.blur_all()
        } else {
            model::nothing()
        };
        assert(actions::acts(out@) =~= earlier + blurred);
        if autohide_changed {
            self.apply_autohide_all(out);
        }
        let ghost hiding = if autohide_changed {
            start.autohide_on(start.layer_surfaces.len() as int)
        } else {
            start.still()
        };
        assert(self@ == hiding.model);
        assert(actions::acts(out@) =~= earlier + blurred + hiding.acts);
        if autohide_changed || clip_changed {
            self.send_bar_filter(out);
            self.resize_surfaces(out);
        }
        assert(actions::acts(out@) =~= earlier + start.restyled(old_config).acts);
    }

    /// The configuration has changed.
    fn on_config(&mut self, config: Config, out: &mut Vec<Action>)
        requires
            old(self)@.has_room(),
        ensures
            went(final(self)@, old(out)@, final(out)@, old(self)@.on_config(config)),
    {
        let ghost start = self@;
        let ghost earlier = actions::acts(out@);
        if config.equals(&self.config) {
            assert(actions::acts(out@) =~= earlier + model::nothing());
            return;
        }
        let geometry_changed: bool = config.size != self.config.size || config.edge
            != self.config.edge || config.fill != self.config.fill;
        let blur_changed: bool = config.blur != self.config.blur;
        let autohide_changed: bool = config.autohide != self.config.autohide;
        let clip_changed: bool = config.clip != self.config.clip;
        let preferred_changed: bool = !same_text(
            &config.preferred_player,
            &self.config.preferred_player,
        );
        self.config = config;
        append(out, Action::SyncPickers);
        if preferred_changed {
            append(out, Action::SetPreferred(self.config.preferred_player.clone()));
        }
        let ghost next = self@;
        assert(actions::acts(out@) =~= earlier + next.followed(start.config));
        if geometry_changed {
            self.send_bar_filter(out);
            self.recreate_surfaces(out);
        } else {
            self.restyle(
                blur_changed,
                autohide_changed,
                clip_changed,
                out,
                Ghost(start.config),
            );
        }
        assert(actions::acts(out@) =~= earlier + start.on_config(config).acts);
    }

    /// The player to show has changed.
    fn on_media(&mut self, state: Option<PlayerState>, art: Option<u64>, out: &mut Vec<Action>)
        ensures
            went(final(self)@, old(out)@, final(out)@, old(self)@.on_media(state, art)),
    {
        let ghost start = self@;
        match state {
            Some(info) => {
                let mut shown: Option<u64> = None;
                let mut pending: bool = false;
                match &info.art {
                    Some(ArtSource::Local(_)) => {
                        shown = art;
                    },
                    Some(ArtSource::Remote(url)) => {
                        pending = true;
                        append(out, Action::FetchArt(url.clone()));
                    },
                    None => {},
                }
                self.media = Some(
                    MediaState {
                        info,
                        art: shown,
                        art_pending: pending,
                        marquee_offset: 0,
                        volume: None,
                    },
                );
            },
            None => {
                self.media = None;
            },
        }
        if self.config.media_enabled {
            self.resize_surfaces(out);
        }
        assert(self@ =~= start.on_media(state, art).model);
        assert(actions::acts(out@) =~= actions::acts(old(out)@) + start.on_media(state, art).acts);
    }
}

/// Nothing is done.
proof fn lemma_still(out: Seq<Action>)
    ensures
        actions::acts(out) == actions::acts(out) + model::nothing(),
{
    assert(actions::acts(out) =~= actions::acts(out) + model::nothing());
}

impl App {
    fn on_wayland(&mut self, event: WaylandEvent, out: &mut Vec<Action>)
        requires
            old(self)@.has_room(),
        ensures
            went(final(self)@, old(out)@, final(out)@, old(self)@.step(Msg::WaylandEvent(event))),
    {
        proof {
            lemma_still(out@);
        }
        match event {
            WaylandEvent::Output { event, output, alive } => {
                self.connected = self.connected || alive;
                self.on_output(event, output, out);
            },
            WaylandEvent::LayerDone(id) => {
                self.on_layer_done(id, out);
            },
            WaylandEvent::PopupDone(id) => {
                let gone: bool = match &self.context_menu {
                    Some(menu) => menu.id == id,
                    None => false,
                };
                if gone {
                    self.context_menu = None;
                }
            },
            WaylandEvent::OverlapNotify { overlap, id } => {
                self.on_overlap(overlap, id, out);
            },
            WaylandEvent::Other => {},
        }
    }

    fn bar_enter(&mut self, id: u64, out: &mut Vec<Action>)
        ensures
            went(final(self)@, old(out)@, final(out)@, old(self)@.step(Msg::BarEnter(id))),
    {
        proof {
            lemma_still(out@);
        }
        if !self.config.autohide {
            return;
        }
        match tables::find(&self.layer_surfaces, id) {
            Some(s) => {
                tables::replace(
                    &mut self.layer_surfaces,
                    id,
                    LayerSurface {
                        hovered: true,
                        hide_generation: s.hide_generation.wrapping_add(1),
                        ..s
                    },
                );
                if s.hidden {
                    self.reveal_surface(id, out);
                }
            },
            None => {},
        }
    }

    fn bar_exit(&mut self, id: u64, out: &mut Vec<Action>)
        ensures
            went(final(self)@, old(out)@, final(out)@, old(self)@.step(Msg::BarExit(id))),
    {
        proof {
            lemma_still(out@);
        }
        if !self.config.autohide {
            return;
        }
        match tables::find(&self.layer_surfaces, id) {
            Some(s) => {
                tables::replace(
                    &mut self.layer_surfaces,
                    id,
                    LayerSurface { hovered: false, ..s },
                );
                self.schedule_hide(id, out);
            },
            None => {},
        }
    }

    fn hide_timeout(&mut self, id: u64, generation: u64, out: &mut Vec<Action>)
        ensures
            went(
                final(self)@,
                old(out)@,
                final(out)@,
                old(self)@.step(Msg::HideTimeout(id, generation)),
            ),
    {
        proof {
            lemma_still(out@);
        }
        match tables::find(&self.layer_surfaces, id) {
            Some(s) => {
                if self.config.autohide && s.hide_generation == generation && !s.hovered
                    && !s.hidden {
                    self.hide_surface(id, out);
                }
            },
            None => {},
        }
    }

    fn bar_move(&mut self, id: u64, point: (F32, F32), out: &mut Vec<Action>)
        ensures
            went(final(self)@, old(out)@, final(out)@, old(self)@.step(Msg::BarMove(id, point))),
    {
        proof {
            lemma_still(out@);
        }
        match tables::find(&self.layer_surfaces, id) {
            Some(s) => {
                tables::replace(&mut self.layer_surfaces, id, LayerSurface { cursor: point, ..s });
            },
            None => {},
        }
    }

    fn menu_rename(&mut self, out: &mut Vec<Action>)
        requires
            old(self)@.has_room(),
        ensures
            went(final(self)@, old(out)@, final(out)@, old(self)@.step(Msg::MenuRename)),
    {
        let ghost start = self@;
        let ghost earlier = actions::acts(out@);
        match self.close_context_menu(out) {
            Some((handle, name)) => {
                self.open_rename(handle, name, out);
            },
            None => {},
        }
        assert(actions::acts(out@) =~= earlier + start.step(Msg::MenuRename).acts);
    }

    fn menu_settings(&mut self, out: &mut Vec<Action>)
        requires
            old(self)@.has_room(),
        ensures
            went(final(self)@, old(out)@, final(out)@, old(self)@.step(Msg::MenuSettings)),
    {
        let ghost start = self@;
        let ghost earlier = actions::acts(out@);
        let _ = self.close_context_menu(out);
        self.open_settings(out);
        assert(actions::acts(out@) =~= earlier + start.step(Msg::MenuSettings).acts);
    }

    fn rename_input(&mut self, value: String, out: &mut Vec<Action>)
        ensures
            went(final(self)@, old(out)@, final(out)@, old(self)@.step(Msg::RenameInput(value))),
    {
        proof {
            lemma_still(out@);
        }
        match self.rename.take() {
            Some(dialog) => {
                self.rename = Some(
                    RenameDialog { id: dialog.id, workspace: dialog.workspace, value },
                );
            },
            None => {},
        }
    }

    fn rename_submit(&mut self, out: &mut Vec<Action>)
        ensures
            went(final(self)@, old(out)@, final(out)@, old(self)@.step(Msg::RenameSubmit)),
    {
        let ghost start = self@;
        let ghost earlier = actions::acts(out@);
        match &self.rename {
            Some(dialog) => {
                self.send_wayland_cmd(
                    Cmd::RenameWorkspace(dialog.workspace, dialog.value.clone()),
                    out,
                );
            },
            None => {},
        }
        self.close_rename(out);
        assert(actions::acts(out@) =~= earlier + start.step(Msg::RenameSubmit).acts);
    }

    fn change_settings(&mut self, msg: settings::SettingsMsg, out: &mut Vec<Action>)
        ensures
            went(final(self)@, old(out)@, final(out)@, old(self)@.step(Msg::Settings(msg))),
    {
        proof {
            lemma_still(out@);
        }
        if !self.store {
            return;
        }
        let ghost goal = self@.step(Msg::Settings(msg)).acts;
        let ghost earlier = actions::acts(out@);
        let mut list: Vec<Write> = settings::update(
            msg,
            self.blur_enabled(),
            self.panel_theme.border_radius,
        );
        let ghost all = list@;
        let ghost mut done: int = 0;
        assert(all.skip(0) =~= all);
        while list.len() > 0
            invariant
                0 <= done <= all.len(),
                list@ == all.skip(done),
                goal == all.map_values(|w: Write| Action::Store(w).act()),
                actions::acts(out@) =~= earlier + goal.take(done),
            decreases list.len(),
        {
            let w: Write = list.remove(0);
            assert(list@ =~= all.skip(done + 1));
            assert(goal[done] == Action::Store(w).act());
            append(out, Action::Store(w));
            proof {
                done = done + 1;
            }
        }
        assert(goal.take(done) =~= goal);
    }

    fn media_raise(&self, out: &mut Vec<Action>)
        ensures
            went(self@, old(out)@, final(out)@, self@.step(Msg::MediaRaise)),
    {
        let ghost earlier = actions::acts(out@);
        match &self.media {
            Some(media) => {
                append(out, Action::Raise(media.info.bus_name.clone()));
                self.send_wayland_cmd(
                    Cmd::ActivateToplevelByAppId(media.info.desktop_entry.clone()),
                    out,
                );
            },
            None => {},
        }
        assert(actions::acts(out@) =~= earlier + self@.step(Msg::MediaRaise).acts);
    }

    fn media_control(&self, control: Control, out: &mut Vec<Action>)
        ensures
            went(self@, old(out)@, final(out)@, self@.step(Msg::MediaControl(control))),
    {
        let ghost earlier = actions::acts(out@);
        match &self.media {
            Some(media) => {
                append(
                    out,
                    Action::MediaControl { player: media.info.bus_name.clone(), control },
                );
            },
            None => {},
        }
        assert(actions::acts(out@) =~= earlier + self@.step(Msg::MediaControl(control)).acts);
    }

    fn media_scroll(&self, steps: isize, out: &mut Vec<Action>)
        ensures
            went(self@, old(out)@, final(out)@, self@.step(Msg::MediaScroll(steps))),
    {
        let ghost earlier = actions::acts(out@);
        match &self.media {
            Some(media) => {
                if steps != 0 {
                    let delta: F64 = if steps > 0 {
                        F64 { bits: 0x3fa9_9999_9999_999a }
                    } else {
                        F64 { bits: 0xbfa9_9999_9999_999a }
                    };
                    append(
                        out,
                        Action::AdjustVolume { player: media.info.bus_name.clone(), delta },
                    );
                }
            },
            None => {},
        }
        assert(actions::acts(out@) =~= earlier + self@.step(Msg::MediaScroll(steps)).acts);
    }

    fn media_volume(&mut self, volume: Option<F64>, out: &mut Vec<Action>)
        ensures
            went(final(self)@, old(out)@, final(out)@, old(self)@.step(Msg::MediaVolume(volume))),
    {
        proof {
            lemma_still(out@);
        }
        let ghost earlier = actions::acts(out@);
        let ghost before = self@;
        if volume.is_none() {
            return;
        }
        match self.media.take() {
            Some(m) => {
                let mut media: MediaState = m;
                media.volume = volume;
                self.media = Some(media);
                self.volume_generation = self.volume_generation.wrapping_add(1);
                append(
                    out,
                    Action::HideVolumeAfter {
                        generation: self.volume_generation,
                        wait: VOLUME_WAIT,
                    },
                );
                assert(actions::acts(out@) =~= earlier + before.step(
                    Msg::MediaVolume(volume),
                ).acts);
            },
            None => {},
        }
    }

    fn media_volume_hide(&mut self, generation: u64, out: &mut Vec<Action>)
        ensures
            went(
                final(self)@,
                old(out)@,
                final(out)@,
                old(self)@.step(Msg::MediaVolumeHide(generation)),
            ),
    {
        proof {
            lemma_still(out@);
        }
        if generation != self.volume_generation {
            return;
        }
        match self.media.take() {
            Some(m) => {
                let mut media: MediaState = m;
                media.volume = None;
                self.media = Some(media);
            },
            None => {},
        }
    }

    fn media_art(&mut self, url: String, image: Option<u64>, out: &mut Vec<Action>)
        ensures
            went(final(self)@, old(out)@, final(out)@, old(self)@.step(Msg::MediaArt(url, image))),
    {
        proof {
            lemma_still(out@);
        }
        match self.media.take() {
            Some(m) => {
                let mut media: MediaState = m;
                let wanted: bool = match &media.info.art {
                    Some(ArtSource::Remote(address)) => same_text(address, &url),
                    _ => false,
                };
                if wanted {
                    media.art = image;
                    media.art_pending = false;
                }
                self.media = Some(media);
            },
            None => {},
        }
    }

    fn marquee_tick(&mut self, out: &mut Vec<Action>)
        ensures
            went(final(self)@, old(out)@, final(out)@, old(self)@.step(Msg::MarqueeTick)),
    {
        proof {
            lemma_still(out@);
        }
        match self.media.take() {
            Some(m) => {
                let mut media: MediaState = m;
                media.marquee_offset = media.marquee_offset.wrapping_add(1);
                self.media = Some(media);
            },
            None => {},
        }
    }

    /// Take in a message; what is to be done outside comes back in order.
    pub fn update(&mut self, message: Msg) -> (out: Vec<Action>)
        requires
            old(self)@.has_room(),
        ensures
            final(self)@ == old(self)@.step(message).model,
            actions::acts(out@) == old(self)@.step(message).acts,
            old(self)@.valid() ==> final(self)@.valid(),
    {
        proof {
            if self@.valid() {
                identity::surfaces_stay_apart(self@, message);
            }
        }
        let mut list: Vec<Action> = Vec::new();
        let ghost start = self@;
        let ghost first = list@;
        proof {
            lemma_still(first);
            assert(actions::acts(first) =~= model::nothing());
            assert(forall|s: Seq<Act>| #[trigger] (actions::acts(first) + s) =~= s);
        }
        let out: &mut Vec<Action> = &mut list;
        match message {
            Msg::WaylandEvent(event) => self.on_wayland(event, out),
            Msg::Wayland(event) => self.on_backend(event, out),
            Msg::Config(config) => self.on_config(config, out),
            Msg::PanelTheme(theme) => {
                if !theme.equals(&self.panel_theme) {
                    self.panel_theme = theme;
                    self.apply_blur_all(out);
                }
            },
            Msg::ActivateWorkspace(handle) => {
                self.send_wayland_cmd(Cmd::ActivateWorkspace(handle), out);
            },
            Msg::OnScroll(output, steps) => {
                match tables::scroll_target(&self.workspaces, output, steps) {
                    Some(handle) => self.send_wayland_cmd(Cmd::ActivateWorkspace(handle), out),
                    None => {},
                }
            },
            Msg::BarEnter(id) => self.bar_enter(id, out),
            Msg::BarExit(id) => self.bar_exit(id, out),
            Msg::BarMove(id, point) => self.bar_move(id, point, out),
            Msg::HideTimeout(id, generation) => self.hide_timeout(id, generation, out),
            Msg::OpenContextMenu(id, workspace) => {
                // A right press on an item reaches the bar as well; the item's
                // menu stays then.
                if workspace.is_some() || self.context_menu.is_none() {
                    self.open_context_menu(id, workspace, out);
                }
            },
            Msg::MenuRename => self.menu_rename(out),
            Msg::MenuSettings => self.menu_settings(out),
            Msg::RenameInput(value) => self.rename_input(value, out),
            Msg::RenameSubmit => self.rename_submit(out),
            Msg::RenameCancel => self.close_rename(out),
            Msg::OpenSettings => self.open_settings(out),
            Msg::Settings(msg) => self.change_settings(msg, out),
            Msg::CloseSettings => self.close_settings(out),
            Msg::CloseWindow(id) => {
                let open: bool = match self.settings.window {
                    Some(w) => w == id,
                    None => false,
                };
                if open {
                    self.close_settings(out);
                }
            },
            Msg::Media(state, art) => self.on_media(state, art, out),
            Msg::MediaControl(control) => self.media_control(control, out),
            Msg::MediaRaise => self.media_raise(out),
            Msg::MediaScroll(steps) => self.media_scroll(steps, out),
            Msg::MediaVolume(volume) => self.media_volume(volume, out),
            Msg::MediaVolumeHide(generation) => self.media_volume_hide(generation, out),
            Msg::MediaArt(url, image) => self.media_art(url, image, out),
            Msg::MarqueeTick => self.marquee_tick(out),
            Msg::Power(_) => self.send_wayland_cmd(Cmd::RefreshCaptures, out),
            Msg::Ignore => {},
        }
        list
    }
}

/// Nothing is taken out where as much is left as there was.
proof fn lemma_none_dropped(list: Seq<Reserved>, gone: Gone)
    requires
        model::still_reserved(list, gone).len() == list.len(),
    ensures
        model::still_reserved(list, gone) == list,
    decreases list.len(),
{
    if list.len() > 0 {
        lemma_fewer_reserved(list.drop_last(), gone);
        lemma_none_dropped(list.drop_last(), gone);
        assert(list.drop_last().push(list.last()) =~= list);
    }
}

proof fn lemma_fewer_reserved(list: Seq<Reserved>, gone: Gone)
    ensures
        model::still_reserved(list, gone).len() <= list.len(),
    decreases list.len(),
{
    if list.len() > 0 {
        lemma_fewer_reserved(list.drop_last(), gone);
    }
}

/// Putting hiding into effect leaves the bars where they are in their table.
proof fn lemma_autohide_keys(m: Model, n: int)
    requires
        0 <= n <= m.layer_surfaces.len(),
    ensures
        m.autohide_on(n).model.layer_surfaces.len() == m.layer_surfaces.len(),
        forall|i: int|
            0 <= i < m.layer_surfaces.len() ==> (#[trigger] m.autohide_on(
                n,
            ).model.layer_surfaces[i]).0 == m.layer_surfaces[i].0,
        m.autohide_on(n).model.config == m.config,
    decreases n,
{
    if n > 0 {
        lemma_autohide_keys(m, n - 1);
        let rest = m.autohide_on(n - 1).model;
        assert forall|i: int| 0 <= i < m.layer_surfaces.len() implies (#[trigger] m.autohide_on(
            n,
        ).model.layer_surfaces[i]).0 == m.layer_surfaces[i].0 by {
            assert(rest.layer_surfaces[i].0 == m.layer_surfaces[i].0);
        }
    }
}

} // verus!
