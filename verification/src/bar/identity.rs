//! The numbers of the bar's surfaces: no two surfaces ever share one.

use crate::backend::strips;
use crate::bar::geometry::{Output, Reserved};
use crate::bar::model;
use crate::bar::model::{
    BackendEvent, ContextMenu, Gone, LayerSurface, Model, Msg, OutputEvent, OverlapEvent,
    WaylandEvent,
};
use crate::bar::tables;
use vstd::prelude::*;

verus! {

/// What a surface is for.
pub enum Role {
    Bar,
    Probe,
    Settings,
    Rename,
    Menu,
}

/// `key` is a key of the table.
pub open spec fn has_key<V>(table: Seq<(u64, V)>, key: u64) -> bool {
    exists|i: int| 0 <= i < table.len() && (#[trigger] table[i]).0 == key
}

/// No two strips were reported by one probe under one name.
pub open spec fn once(list: Seq<Reserved>) -> bool {
    forall|i: int, j: int|
        0 <= i < j < list.len() ==> !same_report(#[trigger] list[i], #[trigger] list[j])
}

/// Reported by one probe under one name.
pub open spec fn same_report(a: Reserved, b: Reserved) -> bool {
    a.probe == b.probe && a.identifier@ == b.identifier@
}

impl Model {
    /// The surface `id` is in use for this.
    pub open spec fn uses(self, id: u64, role: Role) -> bool {
        match role {
            Role::Bar => has_key(self.layer_surfaces, id),
            Role::Probe => has_key(self.probe_surfaces, id),
            Role::Settings => self.window == Some(id),
            Role::Rename => self.rename matches Some(dialog) && dialog.id == id,
            Role::Menu => self.context_menu matches Some(menu) && menu.id == id,
        }
    }

    /// Every surface has a number of its own, which was handed out before.
    pub open spec fn numbered(self) -> bool {
        &&& tables::distinct(self.layer_surfaces)
        &&& tables::distinct(self.probe_surfaces)
        &&& forall|id: u64, role: Role| #[trigger] self.uses(id, role) ==> id < self.next_id
        &&& forall|id: u64, a: Role, b: Role| #[trigger]
            self.uses(id, a) && #[trigger] self.uses(id, b) ==> a == b
    }

    /// What holds of the bar at any time: surfaces are told apart by number, and
    /// a probe reports each strip once.
    pub open spec fn valid(self) -> bool {
        self.numbered() && once(self.reserved)
    }

    /// `next` uses no surface that this state does not use, and what it uses
    /// serves as before.
    pub open spec fn covers(self, next: Model) -> bool {
        &&& next.next_id == self.next_id
        &&& tables::distinct(next.layer_surfaces)
        &&& tables::distinct(next.probe_surfaces)
        &&& forall|id: u64, role: Role| #[trigger] next.uses(id, role) ==> self.uses(id, role)
    }

    /// `next` uses one more surface, with the next number.
    pub open spec fn gains(self, next: Model, role: Role) -> bool {
        &&& next.next_id == self.next_id + 1
        &&& tables::distinct(next.layer_surfaces)
        &&& tables::distinct(next.probe_surfaces)
        &&& forall|id: u64, r: Role| #[trigger]
            next.uses(id, r) ==> self.uses(id, r) || (id == self.next_id && r == role)
    }
}

proof fn lemma_covered(m: Model, next: Model)
    requires
        m.numbered(),
        m.covers(next),
    ensures
        next.numbered(),
{
    assert forall|id: u64, a: Role, b: Role| #[trigger]
        next.uses(id, a) && #[trigger] next.uses(id, b) implies a == b by {
        assert(m.uses(id, a) && m.uses(id, b));
    }
    assert forall|id: u64, role: Role| #[trigger] next.uses(id, role) implies id
        < next.next_id by {
        assert(m.uses(id, role));
    }
}

proof fn lemma_gained(m: Model, next: Model, role: Role)
    requires
        m.numbered(),
        m.gains(next, role),
    ensures
        next.numbered(),
{
    assert forall|id: u64, a: Role, b: Role| #[trigger]
        next.uses(id, a) && #[trigger] next.uses(id, b) implies a == b by {
        if id == m.next_id {
            assert(!m.uses(id, a) && !m.uses(id, b));
        } else {
            assert(m.uses(id, a) && m.uses(id, b));
        }
    }
    assert forall|id: u64, r: Role| #[trigger] next.uses(id, r) implies id < next.next_id by {
        if id != m.next_id {
            assert(m.uses(id, r));
        }
    }
}

/// A bar can be changed without harm.
proof fn lemma_with_surface(m: Model, id: u64, s: LayerSurface)
    requires
        m.numbered(),
    ensures
        m.with_surface(id, s).numbered(),
{
    let next = m.with_surface(id, s);
    let table = m.layer_surfaces;
    assert forall|i: int, j: int| 0 <= i < j < table.len() implies (
    #[trigger] next.layer_surfaces[i]).0 != (#[trigger] next.layer_surfaces[j]).0 by {
        assert(table[i].0 != table[j].0);
    }
    assert forall|k: u64, role: Role| #[trigger] next.uses(k, role) implies m.uses(k, role) by {
        if role is Bar {
            let i = choose|i: int|
                0 <= i < next.layer_surfaces.len() && (#[trigger] next.layer_surfaces[i]).0 == k;
            assert(table[i].0 == k);
        }
    }
    lemma_covered(m, next);
}

proof fn lemma_resized(m: Model)
    requires
        m.numbered(),
    ensures
        m.resized().model.numbered(),
        m.resized().model.next_id == m.next_id,
        m.resized().model.outputs == m.outputs,
{
    reveal(Model::resized);
    let next = m.resized().model;
    let table = m.layer_surfaces;
    assert forall|i: int, j: int| 0 <= i < j < table.len() implies (
    #[trigger] next.layer_surfaces[i]).0 != (#[trigger] next.layer_surfaces[j]).0 by {
        assert(table[i].0 != table[j].0);
    }
    assert forall|k: u64, role: Role| #[trigger] next.uses(k, role) implies m.uses(k, role) by {
        if role is Bar {
            let i = choose|i: int|
                0 <= i < next.layer_surfaces.len() && (#[trigger] next.layer_surfaces[i]).0 == k;
            assert(table[i].0 == k);
        }
    }
    lemma_covered(m, next);
}

/// A key of a table with one more entry.
proof fn lemma_key_pushed<V>(table: Seq<(u64, V)>, key: u64, value: V, k: u64)
    ensures
        has_key(table.push((key, value)), k) ==> has_key(table, k) || k == key,
{
    let more = table.push((key, value));
    if has_key(more, k) {
        let i = choose|i: int| 0 <= i < more.len() && (#[trigger] more[i]).0 == k;
        if i < table.len() {
            assert(table[i].0 == k);
        }
    }
}

/// A key of what is left of a table.
proof fn lemma_key_left<V>(table: Seq<(u64, V)>, key: u64, k: u64)
    ensures
        has_key(model::without(table, key), k) ==> has_key(table, k) && k != key,
{
    let left = model::without(table, key);
    if has_key(left, k) {
        tables::lemma_without_from(table, key);
        let i = choose|i: int| 0 <= i < left.len() && (#[trigger] left[i]).0 == k;
        let j = choose|j: int| 0 <= j < table.len() && table[j] == left[i];
        assert(table[j].0 == k);
    }
}

pub proof fn lemma_below(m: Model)
    requires
        m.numbered(),
    ensures
        tables::below(m.layer_surfaces, m.next_id),
        tables::below(m.probe_surfaces, m.next_id),
{
    assert forall|i: int| 0 <= i < m.layer_surfaces.len() implies (
    #[trigger] m.layer_surfaces[i]).0 < m.next_id by {
        assert(m.uses(m.layer_surfaces[i].0, Role::Bar));
    }
    assert forall|i: int| 0 <= i < m.probe_surfaces.len() implies (
    #[trigger] m.probe_surfaces[i]).0 < m.next_id by {
        assert(m.uses(m.probe_surfaces[i].0, Role::Probe));
    }
}

proof fn lemma_created(m: Model, output: u64)
    requires
        m.numbered(),
        m.next_id < u64::MAX,
    ensures
        m.created(output).model.numbered(),
        m.created(output).model.next_id == m.next_id + 1,
        m.created(output).model.outputs == m.outputs,
{
    let next = m.created(output).model;
    let entry = next.layer_surfaces.last();
    lemma_below(m);
    tables::lemma_pushed(m.layer_surfaces, m.next_id, entry.1);
    assert forall|k: u64, role: Role| #[trigger] next.uses(k, role) implies m.uses(k, role) || (k
        == m.next_id && role == Role::Bar) by {
        lemma_key_pushed(m.layer_surfaces, m.next_id, entry.1, k);
    }
    lemma_gained(m, next, Role::Bar);
}

proof fn lemma_probed(m: Model, output: u64)
    requires
        m.numbered(),
        m.next_id < u64::MAX,
    ensures
        m.probed(output).model.numbered(),
{
    let next = m.probed(output).model;
    lemma_below(m);
    tables::lemma_pushed(m.probe_surfaces, m.next_id, output);
    assert forall|k: u64, role: Role| #[trigger] next.uses(k, role) implies m.uses(k, role) || (k
        == m.next_id && role == Role::Probe) by {
        lemma_key_pushed(m.probe_surfaces, m.next_id, output, k);
    }
    lemma_gained(m, next, Role::Probe);
}

proof fn lemma_settings_opened(m: Model)
    requires
        m.numbered(),
        m.next_id < u64::MAX,
    ensures
        m.settings_opened().model.numbered(),
{
    let next = m.settings_opened().model;
    if m.window is None {
        assert forall|k: u64, role: Role| #[trigger] next.uses(k, role) implies m.uses(k, role)
            || (k == m.next_id && role == Role::Settings) by {}
        lemma_gained(m, next, Role::Settings);
    }
}

proof fn lemma_settings_closed(m: Model)
    requires
        m.numbered(),
    ensures
        m.settings_closed().model.numbered(),
{
    let next = m.settings_closed().model;
    assert forall|k: u64, role: Role| #[trigger] next.uses(k, role) implies m.uses(k, role) by {}
    lemma_covered(m, next);
}

proof fn lemma_menu_closed(m: Model)
    requires
        m.numbered(),
    ensures
        m.menu_closed().model.numbered(),
        m.menu_closed().model.next_id == m.next_id,
{
    let next = m.menu_closed().model;
    assert forall|k: u64, role: Role| #[trigger] next.uses(k, role) implies m.uses(k, role) by {}
    lemma_covered(m, next);
}

proof fn lemma_menu_opened(m: Model, parent: u64, workspace: Option<(u64, String)>)
    requires
        m.numbered(),
        m.next_id < u64::MAX,
    ensures
        m.menu_opened(parent, workspace).model.numbered(),
{
    let next = m.menu_opened(parent, workspace).model;
    if strips::lookup(m.layer_surfaces, parent) is Some {
        assert forall|k: u64, role: Role| #[trigger] next.uses(k, role) implies m.uses(k, role)
            || (k == m.next_id && role == Role::Menu) by {}
        lemma_gained(m, next, Role::Menu);
    } else {
        lemma_menu_closed(m);
    }
}

proof fn lemma_rename_opened(m: Model, workspace: u64, value: String)
    requires
        m.numbered(),
        m.next_id < u64::MAX,
    ensures
        m.rename_opened(workspace, value).model.numbered(),
{
    let next = m.rename_opened(workspace, value).model;
    if m.rename is None {
        assert forall|k: u64, role: Role| #[trigger] next.uses(k, role) implies m.uses(k, role)
            || (k == m.next_id && role == Role::Rename) by {}
        lemma_gained(m, next, Role::Rename);
    }
}

proof fn lemma_rename_closed(m: Model)
    requires
        m.numbered(),
    ensures
        m.rename_closed().model.numbered(),
{
    let next = m.rename_closed().model;
    assert forall|k: u64, role: Role| #[trigger] next.uses(k, role) implies m.uses(k, role) by {}
    lemma_covered(m, next);
}

proof fn lemma_autohide_numbered(m: Model, n: int)
    requires
        m.numbered(),
        0 <= n <= m.layer_surfaces.len(),
    ensures
        m.autohide_on(n).model.numbered(),
        m.autohide_on(n).model.next_id == m.next_id,
        m.autohide_on(n).model.outputs == m.outputs,
    decreases n,
{
    if n > 0 {
        lemma_autohide_numbered(m, n - 1);
        let rest = m.autohide_on(n - 1).model;
        let id = m.layer_surfaces[n - 1].0;
        match strips::lookup(rest.layer_surfaces, id) {
            Some(s) => {
                let g = s.hide_generation.wrapping_add(1);
                lemma_with_surface(rest, id, LayerSurface { hide_generation: g, ..s });
                lemma_with_surface(
                    rest,
                    id,
                    LayerSurface { hidden: false, hide_generation: g, ..s },
                );
            },
            None => {},
        }
    }
}

proof fn lemma_created_on(m: Model, n: int)
    requires
        m.numbered(),
        0 <= n <= m.outputs.len(),
        m.next_id + m.outputs.len() <= u64::MAX,
    ensures
        m.created_on(n).model.numbered(),
        m.created_on(n).model.next_id == m.next_id + n,
    decreases n,
{
    if n > 0 {
        lemma_created_on(m, n - 1);
        lemma_created(m.created_on(n - 1).model, m.outputs[n - 1].handle);
    }
}

proof fn lemma_recreated(m: Model)
    requires
        m.numbered(),
        m.next_id + m.outputs.len() <= u64::MAX,
    ensures
        m.recreated().model.numbered(),
{
    reveal(Model::recreated);
    let cleared = Model { layer_surfaces: Seq::empty(), ..m };
    assert forall|k: u64, role: Role| #[trigger] cleared.uses(k, role) implies m.uses(
        k,
        role,
    ) by {}
    lemma_covered(m, cleared);
    lemma_created_on(cleared, m.outputs.len() as int);
}

/// Surfaces stay as they are where only other things change.
proof fn lemma_same_surfaces(m: Model, next: Model)
    requires
        m.numbered(),
        next.layer_surfaces == m.layer_surfaces,
        next.probe_surfaces == m.probe_surfaces,
        next.window == m.window,
        next.rename == m.rename,
        next.context_menu == m.context_menu,
        next.next_id == m.next_id,
    ensures
        next.numbered(),
{
    assert forall|k: u64, role: Role| #[trigger] next.uses(k, role) implies m.uses(k, role) by {}
    lemma_covered(m, next);
}

proof fn lemma_restyled(m: Model, old: crate::config::Config)
    requires
        m.numbered(),
    ensures
        m.restyled(old).model.numbered(),
{
    reveal(Model::restyled);
    let n = m.layer_surfaces.len() as int;
    lemma_autohide_numbered(m, n);
    lemma_resized(m.autohide_on(n).model);
    lemma_resized(m);
}

proof fn lemma_on_output(m: Model, event: OutputEvent, output: u64)
    requires
        m.numbered(),
        m.has_room(),
    ensures
        m.on_output(event, output).model.numbered(),
{
    match event {
        OutputEvent::Created(Some(info)) => match (info.name, info.logical_size) {
            (Some(name), Some(size)) => {
                let next = Model {
                    outputs: m.outputs.push(
                        Output { handle: output, name, width: size.0, height: size.1 },
                    ),
                    ..m
                };
                lemma_same_surfaces(m, next);
                lemma_created(next, output);
                lemma_probed(next.created(output).model, output);
            },
            _ => {},
        },
        OutputEvent::Created(None) => {},
        OutputEvent::InfoUpdate(info) => {
            let next = Model {
                outputs: match model::output_place(m.outputs, output) {
                    Some(i) => m.outputs.update(i, model::informed(m.outputs[i], info)),
                    None => m.outputs,
                },
                ..m
            };
            lemma_same_surfaces(m, next);
            lemma_resized(next);
        },
        OutputEvent::Removed => {
            let next = m.output_removed(output).model;
            lemma_below(m);
            match model::surface_on(m.layer_surfaces, output) {
                Some(id) => {
                    tables::lemma_without(m.layer_surfaces, id, m.next_id);
                },
                None => {},
            }
            match model::probe_on(m.probe_surfaces, output) {
                Some(id) => {
                    tables::lemma_without(m.probe_surfaces, id, m.next_id);
                },
                None => {},
            }
            assert forall|k: u64, role: Role| #[trigger] next.uses(k, role) implies m.uses(
                k,
                role,
            ) by {
                match model::surface_on(m.layer_surfaces, output) {
                    Some(id) => {
                        lemma_key_left(m.layer_surfaces, id, k);
                    },
                    None => {},
                }
                match model::probe_on(m.probe_surfaces, output) {
                    Some(id) => {
                        lemma_key_left(m.probe_surfaces, id, k);
                    },
                    None => {},
                }
            }
            lemma_covered(m, next);
        },
    }
}

proof fn lemma_on_layer_done(m: Model, id: u64)
    requires
        m.numbered(),
    ensures
        m.on_layer_done(id).model.numbered(),
{
    let next = m.on_layer_done(id).model;
    lemma_below(m);
    tables::lemma_without(m.layer_surfaces, id, m.next_id);
    tables::lemma_without(m.probe_surfaces, id, m.next_id);
    assert forall|k: u64, role: Role| #[trigger] next.uses(k, role) implies m.uses(k, role) by {
        lemma_key_left(m.layer_surfaces, id, k);
        lemma_key_left(m.probe_surfaces, id, k);
    }
    lemma_covered(m, next);
}

proof fn lemma_on_overlap(m: Model, event: OverlapEvent, id: u64)
    requires
        m.numbered(),
    ensures
        m.on_overlap(event, id).model.numbered(),
{
    match strips::lookup(m.probe_surfaces, id) {
        Some(output) => match event {
            OverlapEvent::LayerAdd { identifier, namespace, exclusive, rect } => {
                let added = Reserved { probe: id, identifier, output, namespace, exclusive, rect };
                let next = Model {
                    reserved: model::still_reserved(
                        m.reserved,
                        Gone::Entry(id, identifier),
                    ).push(added),
                    ..m
                };
                lemma_same_surfaces(m, next);
                lemma_resized(next);
            },
            OverlapEvent::LayerRemove { identifier } => {
                let next = Model {
                    reserved: model::still_reserved(m.reserved, Gone::Entry(id, identifier)),
                    ..m
                };
                lemma_same_surfaces(m, next);
                lemma_resized(next);
            },
            OverlapEvent::Other => {},
        },
        None => {},
    }
}

proof fn lemma_on_backend(m: Model, event: BackendEvent)
    requires
        m.numbered(),
    ensures
        m.on_backend(event).model.numbered(),
{
    match event {
        BackendEvent::Workspaces(list) => {
            let next = Model { workspaces: model::relisted(m.workspaces, list@), ..m };
            lemma_same_surfaces(m, next);
            lemma_resized(next);
        },
        _ => {
            lemma_same_surfaces(m, m.on_backend(event).model);
        },
    }
}

proof fn lemma_on_config(m: Model, c: crate::config::Config)
    requires
        m.numbered(),
        m.has_room(),
    ensures
        m.on_config(c).model.numbered(),
{
    let next = Model { config: c, ..m };
    lemma_same_surfaces(m, next);
    lemma_recreated(next);
    lemma_restyled(next, m.config);
}

proof fn lemma_on_pointer(m: Model, id: u64, s: LayerSurface)
    requires
        m.numbered(),
    ensures
        m.with_surface(id, s).numbered(),
        m.with_surface(id, s).revealed(id).model.numbered(),
        m.with_surface(id, s).scheduled(id).model.numbered(),
        m.hidden(id).model.numbered(),
{
    lemma_with_surface(m, id, s);
    let next = m.with_surface(id, s);
    match strips::lookup(next.layer_surfaces, id) {
        Some(t) => {
            let g = t.hide_generation.wrapping_add(1);
            lemma_with_surface(next, id, LayerSurface { hide_generation: g, ..t });
            lemma_with_surface(
                next,
                id,
                LayerSurface { hidden: false, hide_generation: g, ..t },
            );
        },
        None => {},
    }
    match strips::lookup(m.layer_surfaces, id) {
        Some(t) => {
            lemma_with_surface(m, id, LayerSurface { hidden: true, ..t });
        },
        None => {},
    }
}

#[verifier::spinoff_prover]
#[verifier::rlimit(60)]
proof fn lemma_numbered(m: Model, msg: Msg)
    requires
        m.numbered(),
        m.has_room(),
    ensures
        m.step(msg).model.numbered(),
{
    match msg {
        Msg::WaylandEvent(WaylandEvent::Output { event, output, alive }) => {
            let next = Model { connected: m.connected || alive, ..m };
            lemma_same_surfaces(m, next);
            lemma_on_output(next, event, output);
        },
        Msg::WaylandEvent(WaylandEvent::LayerDone(id)) => {
            lemma_on_layer_done(m, id);
        },
        Msg::WaylandEvent(WaylandEvent::PopupDone(id)) => {
            let next = m.step(msg).model;
            assert forall|k: u64, role: Role| #[trigger] next.uses(k, role) implies m.uses(
                k,
                role,
            ) by {}
            lemma_covered(m, next);
        },
        Msg::WaylandEvent(WaylandEvent::OverlapNotify { overlap, id }) => {
            lemma_on_overlap(m, overlap, id);
        },
        Msg::Wayland(event) => {
            lemma_on_backend(m, event);
        },
        Msg::Config(c) => {
            lemma_on_config(m, c);
        },
        Msg::BarEnter(id) => {
            match strips::lookup(m.layer_surfaces, id) {
                Some(s) => {
                    lemma_on_pointer(
                        m,
                        id,
                        LayerSurface {
                            hovered: true,
                            hide_generation: s.hide_generation.wrapping_add(1),
                            ..s
                        },
                    );
                },
                None => {},
            }
        },
        Msg::BarExit(id) => {
            match strips::lookup(m.layer_surfaces, id) {
                Some(s) => {
                    lemma_on_pointer(m, id, LayerSurface { hovered: false, ..s });
                },
                None => {},
            }
        },
        Msg::BarMove(id, point) => {
            match strips::lookup(m.layer_surfaces, id) {
                Some(s) => {
                    lemma_on_pointer(m, id, LayerSurface { cursor: point, ..s });
                },
                None => {},
            }
        },
        Msg::HideTimeout(id, _) => {
            match strips::lookup(m.layer_surfaces, id) {
                Some(s) => {
                    lemma_on_pointer(m, id, s);
                },
                None => {},
            }
        },
        Msg::OpenContextMenu(id, workspace) => {
            lemma_menu_opened(m, id, workspace);
        },
        Msg::MenuRename => {
            lemma_menu_closed(m);
            match m.context_menu {
                Some(ContextMenu { id: _, workspace: Some((handle, name)) }) => {
                    lemma_rename_opened(m.menu_closed().model, handle, name);
                },
                _ => {},
            }
        },
        Msg::MenuSettings => {
            lemma_menu_closed(m);
            lemma_settings_opened(m.menu_closed().model);
        },
        Msg::RenameInput(_) => {
            let next = m.step(msg).model;
            assert forall|k: u64, role: Role| #[trigger] next.uses(k, role) implies m.uses(
                k,
                role,
            ) by {}
            lemma_covered(m, next);
        },
        Msg::RenameSubmit => {
            lemma_rename_closed(m);
        },
        Msg::RenameCancel => {
            lemma_rename_closed(m);
        },
        Msg::OpenSettings => {
            lemma_settings_opened(m);
        },
        Msg::CloseSettings => {
            lemma_settings_closed(m);
        },
        Msg::CloseWindow(_) => {
            lemma_settings_closed(m);
        },
        Msg::Media(state, art) => {
            let next = m.on_media(state, art).model;
            let plain = Model { media: next.media, ..m };
            reveal(Model::resized);
            lemma_same_surfaces(m, plain);
            lemma_resized(plain);
        },
        _ => {
            lemma_same_surfaces(m, m.step(msg).model);
        },
    }
}

/// What is left of a list in which nothing was reported twice.
proof fn lemma_left_once(list: Seq<Reserved>, gone: Gone)
    requires
        once(list),
    ensures
        once(model::still_reserved(list, gone)),
        forall|i: int|
            0 <= i < model::still_reserved(list, gone).len() ==> !gone.takes(
                #[trigger] model::still_reserved(list, gone)[i],
            ) && list.contains(model::still_reserved(list, gone)[i]),
    decreases list.len(),
{
    if list.len() > 0 {
        let front = list.drop_last();
        let rest = model::still_reserved(front, gone);
        let all = model::still_reserved(list, gone);
        assert forall|i: int, j: int| 0 <= i < j < front.len() implies !same_report(
            #[trigger] front[i],
            #[trigger] front[j],
        ) by {
            assert(!same_report(list[i], list[j]));
        }
        lemma_left_once(front, gone);
        assert forall|i: int| 0 <= i < rest.len() implies list.contains(rest[i]) && !same_report(
            #[trigger] rest[i],
            list.last(),
        ) by {
            assert(front.contains(rest[i]));
            let k = choose|k: int| 0 <= k < front.len() && front[k] == rest[i];
            assert(list[k] == rest[i]);
            assert(!same_report(list[k], list[list.len() - 1]));
        }
        assert forall|i: int| 0 <= i < all.len() implies !gone.takes(#[trigger] all[i])
            && list.contains(all[i]) by {
            if i < rest.len() {
                assert(all[i] == rest[i]);
            } else {
                assert(list[list.len() - 1] == all[i]);
            }
        }
        assert forall|i: int, j: int| 0 <= i < j < all.len() implies !same_report(
            #[trigger] all[i],
            #[trigger] all[j],
        ) by {
            assert(all[i] == rest[i]);
            if j < rest.len() {
                assert(all[j] == rest[j]);
            }
        }
    }
}

proof fn lemma_reserved_resized(m: Model)
    ensures
        m.resized().model.reserved == m.reserved,
{
    reveal(Model::resized);
}

proof fn lemma_reserved_created_on(m: Model, n: int)
    ensures
        m.created_on(n).model.reserved == m.reserved,
    decreases n,
{
    if n > 0 {
        lemma_reserved_created_on(m, n - 1);
    }
}

proof fn lemma_reserved_autohide_on(m: Model, n: int)
    ensures
        m.autohide_on(n).model.reserved == m.reserved,
    decreases n,
{
    if n > 0 {
        lemma_reserved_autohide_on(m, n - 1);
    }
}

proof fn lemma_reserved_on_config(m: Model, c: crate::config::Config)
    ensures
        m.on_config(c).model.reserved == m.reserved,
{
    let next = Model { config: c, ..m };
    reveal(Model::recreated);
    reveal(Model::restyled);
    lemma_reserved_created_on(
        Model { layer_surfaces: Seq::empty(), ..next },
        next.outputs.len() as int,
    );
    let n = next.layer_surfaces.len() as int;
    lemma_reserved_autohide_on(next, n);
    lemma_reserved_resized(next);
    lemma_reserved_resized(next.autohide_on(n).model);
}

proof fn lemma_reserved_on_overlap(m: Model, event: OverlapEvent, id: u64)
    requires
        once(m.reserved),
    ensures
        once(m.on_overlap(event, id).model.reserved),
{
    match strips::lookup(m.probe_surfaces, id) {
        Some(output) => match event {
            OverlapEvent::LayerAdd { identifier, namespace, exclusive, rect } => {
                let gone = Gone::Entry(id, identifier);
                let added = Reserved { probe: id, identifier, output, namespace, exclusive, rect };
                let left = model::still_reserved(m.reserved, gone);
                let list = left.push(added);
                lemma_left_once(m.reserved, gone);
                assert forall|i: int, j: int| 0 <= i < j < list.len() implies !same_report(
                    #[trigger] list[i],
                    #[trigger] list[j],
                ) by {
                    assert(list[i] == left[i]);
                    if j < left.len() {
                        assert(list[j] == left[j]);
                    } else {
                        assert(!gone.takes(left[i]));
                    }
                }
                lemma_reserved_resized(Model { reserved: list, ..m });
            },
            OverlapEvent::LayerRemove { identifier } => {
                let gone = Gone::Entry(id, identifier);
                lemma_left_once(m.reserved, gone);
                lemma_reserved_resized(
                    Model { reserved: model::still_reserved(m.reserved, gone), ..m },
                );
            },
            OverlapEvent::Other => {},
        },
        None => {},
    }
}

proof fn lemma_reserved_on_output(m: Model, event: OutputEvent, output: u64)
    requires
        once(m.reserved),
    ensures
        once(m.on_output(event, output).model.reserved),
{
    match event {
        OutputEvent::InfoUpdate(info) => {
            lemma_reserved_resized(
                Model {
                    outputs: match model::output_place(m.outputs, output) {
                        Some(i) => m.outputs.update(i, model::informed(m.outputs[i], info)),
                        None => m.outputs,
                    },
                    ..m
                },
            );
        },
        OutputEvent::Removed => {
            lemma_left_once(m.reserved, Gone::Output(output));
        },
        OutputEvent::Created(_) => {},
    }
}

#[verifier::spinoff_prover]
#[verifier::rlimit(60)]
proof fn lemma_reserved_once(m: Model, msg: Msg)
    requires
        once(m.reserved),
    ensures
        once(m.step(msg).model.reserved),
{
    match msg {
        Msg::WaylandEvent(WaylandEvent::Output { event, output, alive }) => {
            lemma_reserved_on_output(
                Model { connected: m.connected || alive, ..m },
                event,
                output,
            );
        },
        Msg::WaylandEvent(WaylandEvent::LayerDone(id)) => {
            lemma_left_once(m.reserved, Gone::Probe(id));
        },
        Msg::WaylandEvent(WaylandEvent::OverlapNotify { overlap, id }) => {
            lemma_reserved_on_overlap(m, overlap, id);
        },
        Msg::Wayland(BackendEvent::Workspaces(list)) => {
            lemma_reserved_resized(
                Model { workspaces: model::relisted(m.workspaces, list@), ..m },
            );
        },
        Msg::Config(c) => {
            lemma_reserved_on_config(m, c);
        },
        Msg::Media(state, art) => {
            let next = m.on_media(state, art).model;
            reveal(Model::resized);
            assert(next.reserved == m.reserved);
        },
        _ => {
            assert(m.step(msg).model.reserved == m.reserved);
        },
    }
}

/// Whatever the bar is told, every surface keeps a number of its own: no two
/// surfaces in use ever share one, and no number is handed out twice. And a
/// probe never has two reports under one name.
pub proof fn surfaces_stay_apart(m: Model, msg: Msg)
    requires
        m.valid(),
        m.has_room(),
    ensures
        m.step(msg).model.valid(),
{
    lemma_numbered(m, msg);
    lemma_reserved_once(m, msg);
}

/// Another theme changes nothing about surfaces and strips.
pub proof fn themes_keep_surfaces(m: Model, frosted: bool)
    requires
        m.valid(),
    ensures
        (Model { frosted_panel: frosted, ..m }).valid(),
{
    lemma_same_surfaces(m, Model { frosted_panel: frosted, ..m });
}

} // verus!
