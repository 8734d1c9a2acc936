//! What single events bring about.

use crate::backend::captures::Cmd;
use crate::backend::media::player::{ArtSource, PlayerState};
use crate::backend::strips;
use crate::bar::actions::{Act, Action, FilterView};
use crate::bar::geometry;
use crate::bar::geometry::{Output, Reserved, Workspace};
use crate::bar::model;
use crate::bar::model::{
    BackendEvent, Gone, LayerSurface, Listed, MediaState, Model, Msg, OutputInfo,
};
use crate::config;
use crate::config::{Config, PanelTheme};
use vstd::prelude::*;

verus! {

/// A bar is created on an output: with this number and size, attached to its own
/// edge and not to the opposite one, and keeping its thickness free for itself
/// unless it hides.
pub open spec fn creates_bar(act: Act, c: Config, bar: (u64, LayerSurface)) -> bool {
    match act {
        Act::Plain(Action::CreateBar { id, output, size, anchor, exclusive_zone }) => {
            &&& id == bar.0
            &&& output == bar.1.output
            &&& size == bar.1.last_size
            &&& config::touches(anchor, c.edge)
            &&& !config::touches(anchor, config::opposite(c.edge))
            &&& forall|f: config::Edge|
                f != c.edge && f != config::opposite(c.edge) ==> #[trigger] config::touches(
                    anchor,
                    f,
                ) == c.fill
            &&& c.autohide ==> exclusive_zone == 0
            &&& !c.autohide && c.size <= i32::MAX ==> exclusive_zone == c.size
        },
        _ => false,
    }
}

/// One of the actions creates the bar.
pub open spec fn bar_is_created(acts: Seq<Act>, c: Config, bar: (u64, LayerSurface)) -> bool {
    exists|k: int| 0 <= k < acts.len() && creates_bar(#[trigger] acts[k], c, bar)
}

/// A bar that stands on an output, with the size that its content asks for.
pub open spec fn stands_on(m: Model, bar: (u64, LayerSurface), output: u64) -> bool {
    &&& bar.1.output == output
    &&& bar.1.last_size == m.size_on(output)
    &&& !bar.1.hidden
    &&& !bar.1.hovered
}

proof fn lemma_created(m: Model, output: u64)
    ensures
        ({
            let made = m.created(output);
            let bar = made.model.layer_surfaces.last();
            &&& stands_on(m, bar, output)
            &&& bar.0 == m.next_id
            &&& creates_bar(made.acts[0], m.config, bar)
            &&& made.acts.len() >= 2
        }),
{
}

/// Creating bars does not change what their sizes depend on.
proof fn lemma_created_on(m: Model, n: int)
    requires
        0 <= n <= m.outputs.len(),
        m.layer_surfaces.len() == 0,
    ensures
        ({
            let made = m.created_on(n);
            &&& made.model == (Model {
                layer_surfaces: made.model.layer_surfaces,
                next_id: made.model.next_id,
                ..m
            })
            &&& made.model.layer_surfaces.len() == n
            &&& forall|i: int|
                0 <= i < n ==> stands_on(
                    m,
                    #[trigger] made.model.layer_surfaces[i],
                    m.outputs[i].handle,
                ) && bar_is_created(made.acts, m.config, made.model.layer_surfaces[i])
        }),
    decreases n,
{
    if n > 0 {
        lemma_created_on(m, n - 1);
        let rest = m.created_on(n - 1);
        let output = m.outputs[n - 1].handle;
        let next = rest.model.created(output);
        let made = m.created_on(n);
        lemma_created(rest.model, output);
        assert forall|o: u64| #[trigger] rest.model.size_on(o) == m.size_on(o) by {
            reveal(Model::size_on);
        }
        assert(made.acts == rest.acts + next.acts);
        assert forall|i: int| 0 <= i < n implies stands_on(
            m,
            #[trigger] made.model.layer_surfaces[i],
            m.outputs[i].handle,
        ) && bar_is_created(made.acts, m.config, made.model.layer_surfaces[i]) by {
            let bar = made.model.layer_surfaces[i];
            if i < n - 1 {
                assert(bar == rest.model.layer_surfaces[i]);
                let k = choose|k: int|
                    0 <= k < rest.acts.len() && creates_bar(#[trigger] rest.acts[k], m.config, bar);
                assert(made.acts[k] == rest.acts[k]);
            } else {
                assert(made.acts[rest.acts.len() as int] == next.acts[0]);
                assert(creates_bar(made.acts[rest.acts.len() as int], m.config, bar));
            }
        }
    }
}

/// A configuration with another size, edge or shape takes new bars: every bar
/// that was there is destroyed, and one is created on each output, in the size
/// that it has under the new configuration.
#[verifier::rlimit(30)]
pub proof fn new_geometry_takes_new_bars(m: Model, c: Config)
    requires
        c.size != m.config.size || c.edge != m.config.edge || c.fill != m.config.fill,
    ensures
        ({
            let out = m.step(Msg::Config(c));
            let bars = out.model.layer_surfaces;
            &&& out.model.config == c
            &&& out.model.outputs == m.outputs
            &&& bars.len() == m.outputs.len()
            &&& forall|i: int|
                0 <= i < bars.len() ==> stands_on(
                    out.model,
                    #[trigger] bars[i],
                    m.outputs[i].handle,
                ) && bar_is_created(out.acts, c, bars[i])
            &&& forall|i: int|
                0 <= i < m.layer_surfaces.len() ==> out.acts.contains(
                    Act::Plain(Action::DestroySurface((#[trigger] m.layer_surfaces[i]).0)),
                )
        }),
{
    config::equal_configurations_agree(c, m.config);
    let next = Model { config: c, ..m };
    let cleared = Model { layer_surfaces: Seq::empty(), ..next };
    let out = m.step(Msg::Config(c));
    reveal(Model::recreated);
    lemma_created_on(cleared, m.outputs.len() as int);
    let made = cleared.created_on(m.outputs.len() as int);
    let gone = m.layer_surfaces.map_values(
        |e: (u64, LayerSurface)| Action::DestroySurface(e.0).act(),
    );
    let first = next.followed(m.config);
    let told = next.report();
    assert(out.acts == first + (told + (gone + made.acts)));
    assert forall|o: u64| #[trigger] out.model.size_on(o) == cleared.size_on(o) by {
        reveal(Model::size_on);
    }
    let before = first.len() + told.len();
    assert forall|i: int| 0 <= i < m.outputs.len() implies stands_on(
        out.model,
        #[trigger] out.model.layer_surfaces[i],
        m.outputs[i].handle,
    ) && bar_is_created(out.acts, c, out.model.layer_surfaces[i]) by {
        let bar = made.model.layer_surfaces[i];
        assert(stands_on(cleared, bar, m.outputs[i].handle));
        let k = choose|k: int|
            0 <= k < made.acts.len() && creates_bar(#[trigger] made.acts[k], c, bar);
        let at = before + gone.len() + k;
        assert(out.acts[at] == made.acts[k]);
        assert(creates_bar(out.acts[at], c, bar));
    }
    assert forall|i: int| 0 <= i < m.layer_surfaces.len() implies out.acts.contains(
        Act::Plain(Action::DestroySurface((#[trigger] m.layer_surfaces[i]).0)),
    ) by {
        assert(out.acts[before + i] == gone[i]);
    }
}

/// Two tables hold the same bars, perhaps in other states.
pub open spec fn same_bars(a: Seq<(u64, LayerSurface)>, b: Seq<(u64, LayerSurface)>) -> bool {
    a.len() == b.len() && forall|i: int|
        0 <= i < a.len() ==> (#[trigger] a[i]).0 == b[i].0
}

pub proof fn lemma_resized_bars(m: Model)
    ensures
        same_bars(m.resized().model.layer_surfaces, m.layer_surfaces),
        m.resized().model == (Model {
            layer_surfaces: m.resized().model.layer_surfaces,
            ..m
        }),
        forall|i: int|
            0 <= i < m.layer_surfaces.len() ==> (
            #[trigger] m.resized().model.layer_surfaces[i]).1.hidden
                == m.layer_surfaces[i].1.hidden && m.resized().model.layer_surfaces[i].1.output
                == m.layer_surfaces[i].1.output,
{
    reveal(Model::resized);
}

pub proof fn lemma_known<V>(table: Seq<(u64, V)>, i: int)
    requires
        0 <= i < table.len(),
    ensures
        strips::lookup(table, table[i].0) is Some,
    decreases table.len(),
{
    if i > 0 && table[0].0 != table[i].0 {
        assert(table.skip(1)[i - 1] == table[i]);
        lemma_known(table.skip(1), i - 1);
    }
}

/// A bar is told what strip it keeps free.
pub open spec fn zone_act(id: u64, zone: i32) -> Act {
    Act::Plain(Action::SetZone { id, zone })
}

/// Hiding or not is put into effect bar by bar.
pub proof fn lemma_autohide_on(m: Model, n: int)
    requires
        0 <= n <= m.layer_surfaces.len(),
    ensures
        ({
            let done = m.autohide_on(n);
            &&& same_bars(done.model.layer_surfaces, m.layer_surfaces)
            &&& done.model == (Model { layer_surfaces: done.model.layer_surfaces, ..m })
            &&& !m.config.autohide ==> forall|i: int|
                0 <= i < n ==> !(#[trigger] done.model.layer_surfaces[i]).1.hidden
            &&& forall|i: int|
                0 <= i < n ==> done.acts.contains(
                    zone_act((#[trigger] m.layer_surfaces[i]).0, m.zone()),
                )
        }),
    decreases n,
{
    if n > 0 {
        lemma_autohide_on(m, n - 1);
        let rest = m.autohide_on(n - 1);
        let id = m.layer_surfaces[n - 1].0;
        let done = m.autohide_on(n);
        assert(rest.model.layer_surfaces[n - 1].0 == id);
        lemma_known(rest.model.layer_surfaces, n - 1);
        assert forall|i: int| 0 <= i < m.layer_surfaces.len() implies (
        #[trigger] done.model.layer_surfaces[i]).0 == m.layer_surfaces[i].0 by {
            assert(rest.model.layer_surfaces[i].0 == m.layer_surfaces[i].0);
        }
        if !m.config.autohide {
            assert forall|i: int| 0 <= i < n implies !(
            #[trigger] done.model.layer_surfaces[i]).1.hidden by {
                assert(rest.model.layer_surfaces[i].0 == m.layer_surfaces[i].0);
            }
        }
        let zone = model::one(Action::SetZone { id, zone: m.zone() });
        assert forall|i: int| 0 <= i < n implies done.acts.contains(
            zone_act((#[trigger] m.layer_surfaces[i]).0, m.zone()),
        ) by {
            let act = zone_act(m.layer_surfaces[i].0, m.zone());
            if i < n - 1 {
                let k = choose|k: int| 0 <= k < rest.acts.len() && rest.acts[k] == act;
                assert(done.acts[k] == act);
            } else {
                assert(zone[0] == act);
                assert(done.acts[rest.acts.len() as int] == act);
            }
        }
    }
}

/// A configuration of the same size, edge and shape keeps the bars that are
/// there. Where hiding is switched, each is told how much room to keep free: none
/// if bars hide, and else its thickness; and when they no longer hide, every bar
/// is back on the screen.
#[verifier::rlimit(30)]
pub proof fn same_geometry_keeps_bars(m: Model, c: Config)
    requires
        c.size == m.config.size && c.edge == m.config.edge && c.fill == m.config.fill,
    ensures
        ({
            let out = m.step(Msg::Config(c));
            let bars = out.model.layer_surfaces;
            &&& same_bars(bars, m.layer_surfaces)
            &&& out.model.next_id == m.next_id
            &&& !c.same(m.config) ==> out.model.config == c
            &&& m.config.autohide && !c.autohide ==> forall|i: int|
                0 <= i < bars.len() ==> !(#[trigger] bars[i]).1.hidden && (c.size <= i32::MAX
                    ==> out.acts.contains(zone_act(bars[i].0, c.size as i32)))
            &&& !m.config.autohide && c.autohide ==> forall|i: int|
                0 <= i < bars.len() ==> out.acts.contains(zone_act((#[trigger] bars[i]).0, 0))
        }),
{
    config::equal_configurations_agree(c, m.config);
    if !c.same(m.config) {
        let next = Model { config: c, ..m };
        let out = m.step(Msg::Config(c));
        let old = m.config;
        reveal(Model::restyled);
        let all = m.layer_surfaces.len() as int;
        lemma_autohide_on(next, all);
        let hiding = if c.autohide != old.autohide {
            next.autohide_on(all)
        } else {
            next.still()
        };
        lemma_resized_bars(hiding.model);
        let sized = hiding.model.resized();
        let blurred = if c.blur != old.blur {
            next.blur_all()
        } else {
            model::nothing()
        };
        assert(out.acts == next.followed(old) + next.restyled(old).acts);
        if c.autohide != old.autohide {
            assert(next.restyled(old).acts == blurred + hiding.acts + (hiding.model.report()
                + sized.acts));
            assert forall|i: int| 0 <= i < all implies out.acts.contains(
                zone_act((#[trigger] out.model.layer_surfaces[i]).0, next.zone()),
            ) by {
                let act = zone_act(next.layer_surfaces[i].0, next.zone());
                assert(out.model.layer_surfaces[i].0 == hiding.model.layer_surfaces[i].0);
                assert(hiding.acts.contains(act));
                let k = choose|k: int| 0 <= k < hiding.acts.len() && hiding.acts[k] == act;
                let at = next.followed(old).len() + blurred.len() + k;
                assert(out.acts[at] == act);
            }
            if !c.autohide {
                assert forall|i: int| 0 <= i < all implies !(
                #[trigger] out.model.layer_surfaces[i]).1.hidden by {
                    assert(!hiding.model.layer_surfaces[i].1.hidden);
                }
            }
        }
    }
}

/// What is told to the backend is where the bar is and how thick, the size of each
/// output, and what is cropped there.
pub open spec fn tells_of(f: FilterView, m: Model) -> bool {
    &&& f.edge == m.config.edge
    &&& f.size == m.config.size
    &&& f.outputs.len() == m.outputs.len()
    &&& f.clips.len() == m.outputs.len()
    &&& forall|i: int|
        0 <= i < m.outputs.len() ==> {
            let o = #[trigger] m.outputs[i];
            &&& f.outputs[i] == (o.handle, (o.width, o.height))
            &&& f.clips[i] == (
                o.handle,
                geometry::clips_on(m.config.clip, m.outputs, m.reserved, o.handle),
            )
        }
}

/// What the backend is told fits the state. Previews are twice as wide as the bar
/// is thick, but at least 128 and at most 512 pixels. Captures pause while the
/// settings are open, and while bars hide and every one is hidden.
pub proof fn reports_tell_of_the_bar(m: Model)
    ensures
        ({
            let f = m.filter();
            &&& tells_of(f, m)
            &&& 128 <= f.preview_px <= 512
            &&& 64 <= m.config.size <= 256 ==> f.preview_px == 2 * m.config.size
            &&& m.config.size < 64 ==> f.preview_px == 128
            &&& 256 < m.config.size <= i32::MAX ==> f.preview_px == 512
            &&& m.window is Some ==> f.paused
            &&& m.window is None && !m.config.autohide ==> !f.paused
            &&& m.window is None && m.layer_surfaces.len() == 0 ==> !f.paused
            &&& forall|i: int|
                0 <= i < m.layer_surfaces.len() && m.window is None && !(
                #[trigger] m.layer_surfaces[i]).1.hidden ==> !f.paused
            &&& m.config.autohide && m.layer_surfaces.len() > 0 && (forall|i: int|
                0 <= i < m.layer_surfaces.len() ==> (#[trigger] m.layer_surfaces[i]).1.hidden)
                ==> f.paused
        }),
{
    reveal(Model::filter);
}

/// An output that appears gets a bar and a probe of its own; what is told to the
/// backend has its size. The other outputs and bars stay.
pub proof fn new_outputs_get_bars(m: Model, output: u64, name: String, size: (i32, i32))
    requires
        m.has_room(),
    ensures
        ({
            let info = OutputInfo { name: Some(name), logical_size: Some(size) };
            let out = m.on_output(model::OutputEvent::Created(Some(info)), output);
            let bar = out.model.layer_surfaces.last();
            let probe = out.model.probe_surfaces.last();
            let added = out.model.outputs.last();
            &&& out.model.outputs.drop_last() == m.outputs
            &&& (added.handle, added.name, added.width, added.height) == (
                output,
                name,
                size.0,
                size.1,
            )
            &&& out.model.layer_surfaces.drop_last() == m.layer_surfaces
            &&& stands_on(out.model, bar, output)
            &&& bar_is_created(out.acts, m.config, bar)
            &&& out.model.probe_surfaces.drop_last() == m.probe_surfaces
            &&& probe.1 == output && probe.0 != bar.0
            &&& out.acts.contains(Act::Plain(Action::CreateProbe { id: probe.0, output }))
            &&& m.backend ==> (out.acts[0] matches Act::Report(f) && tells_of(f, out.model))
        }),
{
    let info = OutputInfo { name: Some(name), logical_size: Some(size) };
    let out = m.on_output(model::OutputEvent::Created(Some(info)), output);
    let next = Model {
        outputs: m.outputs.push(Output { handle: output, name, width: size.0, height: size.1 }),
        ..m
    };
    let made = next.created(output);
    let told = next.report();
    let probed = made.model.probed(output);
    lemma_created(next, output);
    assert(out.acts == told + made.acts + probed.acts);
    assert(out.model.outputs.drop_last() =~= m.outputs);
    assert(out.model.layer_surfaces.drop_last() =~= m.layer_surfaces);
    assert(out.model.probe_surfaces.drop_last() =~= m.probe_surfaces);
    assert(next.size_on(output) == out.model.size_on(output)) by {
        reveal(Model::size_on);
    }
    let bar = out.model.layer_surfaces.last();
    assert(out.acts[told.len() as int] == made.acts[0]);
    assert(creates_bar(out.acts[told.len() as int], m.config, bar));
    assert(out.acts[(told.len() + made.acts.len()) as int] == probed.acts[0]);
    if m.backend {
        assert(out.acts[0] == told[0]);
        reports_tell_of_the_bar(next);
    }
}

proof fn lemma_output_place(outputs: Seq<Output>, handle: u64)
    ensures
        match model::output_place(outputs, handle) {
            Some(i) => {
                &&& 0 <= i < outputs.len()
                &&& outputs[i].handle == handle
                &&& forall|k: int| 0 <= k < i ==> (#[trigger] outputs[k]).handle != handle
            },
            None => forall|k: int|
                0 <= k < outputs.len() ==> (#[trigger] outputs[k]).handle != handle,
        },
    decreases outputs.len(),
{
    if outputs.len() > 0 && outputs[0].handle != handle {
        let rest = outputs.skip(1);
        lemma_output_place(rest, handle);
        match model::output_place(rest, handle) {
            Some(i) => {
                assert(rest[i] == outputs[i + 1]);
                assert forall|k: int| 0 <= k < i + 1 implies (#[trigger] outputs[k]).handle
                    != handle by {
                    if k > 0 {
                        assert(rest[k - 1] == outputs[k]);
                    }
                }
            },
            None => {
                assert forall|k: int| 0 <= k < outputs.len() implies (#[trigger] outputs[k]).handle
                    != handle by {
                    if k > 0 {
                        assert(rest[k - 1] == outputs[k]);
                    }
                }
            },
        }
    }
}

/// An output that tells a new name or size of itself has it from then on, and
/// keeps what it does not tell; no other output changes.
pub proof fn outputs_are_what_they_tell(m: Model, output: u64, info: OutputInfo, i: int)
    requires
        0 <= i < m.outputs.len(),
        forall|k: int| 0 <= k < m.outputs.len() && k != i ==> (#[trigger] m.outputs[k]).handle
            != m.outputs[i].handle,
    ensures
        ({
            let next = m.on_output(model::OutputEvent::InfoUpdate(info), output).model.outputs;
            let before = m.outputs[i];
            let after = next[i];
            &&& next.len() == m.outputs.len()
            &&& before.handle != output ==> after == before
            &&& before.handle == output ==> {
                &&& after.handle == output
                &&& info.name is Some ==> after.name == info.name->0
                &&& info.name is None ==> after.name == before.name
                &&& info.logical_size is Some ==> (after.width, after.height)
                    == info.logical_size->0
                &&& info.logical_size is None ==> (after.width, after.height) == (
                    before.width,
                    before.height,
                )
            }
        }),
{
    lemma_output_place(m.outputs, output);
    let next = Model {
        outputs: match model::output_place(m.outputs, output) {
            Some(j) => m.outputs.update(j, model::informed(m.outputs[j], info)),
            None => m.outputs,
        },
        ..m
    };
    lemma_resized_bars(next);
}

/// Looking something up under one key is not changed by taking another away.
pub proof fn lookups_are_independent<V>(table: Seq<(u64, V)>, gone: u64, key: u64, value: V)
    ensures
        strips::lookup(model::without(table, gone), gone) is None,
        key != gone ==> strips::lookup(model::without(table, gone), key) == strips::lookup(
            table,
            key,
        ),
        key != gone ==> strips::lookup(model::replaced(table, gone, value), key)
            == strips::lookup(table, key),
        strips::lookup(model::replaced(table, gone, value), gone) is Some == strips::lookup(
            table,
            gone,
        ) is Some,
    decreases table.len(),
{
    if table.len() > 0 {
        let front = table.drop_last();
        let last = table.last();
        lookups_are_independent(front, gone, key, value);
        lemma_lookup_last(front, last, key);
        lemma_lookup_last(front, last, gone);
        assert(front.push(last) =~= table);
        let rest = model::without(front, gone);
        lemma_lookup_last(rest, last, key);
        lemma_lookup_last(rest, last, gone);
        let swapped = model::replaced(front, gone, value);
        let changed = if last.0 == gone {
            (gone, value)
        } else {
            last
        };
        lemma_lookup_last(swapped, changed, key);
        lemma_lookup_last(swapped, changed, gone);
        assert(model::replaced(table, gone, value) =~= swapped.push(changed));
    }
}

/// The last entry of a table counts where no earlier one does.
proof fn lemma_lookup_last<V>(front: Seq<(u64, V)>, last: (u64, V), key: u64)
    ensures
        strips::lookup(front.push(last), key) == match strips::lookup(front, key) {
            Some(v) => Some(v),
            None => if last.0 == key {
                Some(last.1)
            } else {
                None
            },
        },
    decreases front.len(),
{
    let all = front.push(last);
    if front.len() > 0 {
        assert(all.skip(1) =~= front.skip(1).push(last));
        lemma_lookup_last(front.skip(1), last, key);
    } else {
        assert(all.skip(1).len() == 0);
        assert(strips::lookup(all.skip(1), key) is None);
        assert(all[0] == last);
    }
}

/// The first entry for a key is found: the one at `i`, if none before has its key.
pub proof fn lookups_find_the_first<V>(table: Seq<(u64, V)>, i: int)
    requires
        0 <= i < table.len(),
        forall|k: int| 0 <= k < i ==> (#[trigger] table[k]).0 != table[i].0,
    ensures
        strips::lookup(table, table[i].0) == Some(table[i].1),
    decreases table.len(),
{
    if i > 0 {
        assert(table[0].0 != table[i].0);
        let rest = table.skip(1);
        assert forall|k: int| 0 <= k < i - 1 implies (#[trigger] rest[k]).0 != rest[i - 1].0 by {
            assert(rest[k] == table[k + 1]);
        }
        assert(rest[i - 1] == table[i]);
        lookups_find_the_first(rest, i - 1);
    }
}

/// A layer surface that is gone is forgotten in whatever role it had, and no other
/// bar or probe with it. The settings and the rename dialog are closed by their own
/// surface alone.
#[verifier::rlimit(30)]
pub proof fn gone_surfaces_are_forgotten(m: Model, id: u64, other: u64)
    requires
        other != id,
    ensures
        ({
            let out = m.step(Msg::WaylandEvent(model::WaylandEvent::LayerDone(id)));
            let n = out.model;
            &&& strips::lookup(n.layer_surfaces, id) is None
            &&& strips::lookup(n.probe_surfaces, id) is None
            &&& strips::lookup(n.layer_surfaces, other) == strips::lookup(m.layer_surfaces, other)
            &&& strips::lookup(n.probe_surfaces, other) == strips::lookup(m.probe_surfaces, other)
            &&& m.window == Some(id) ==> n.window is None
            &&& m.window != Some(id) ==> n.window == m.window && out.acts.len() == 0
            &&& (m.rename matches Some(d) && d.id == id) ==> n.rename is None
            &&& (m.rename matches Some(d) && d.id != id) ==> n.rename == m.rename
            &&& m.window == Some(id) && m.backend ==> out.acts.len() == 1 && out.acts[0] is Report
            &&& (n.outputs, n.workspaces, n.config, n.media) == (
                m.outputs,
                m.workspaces,
                m.config,
                m.media,
            )
        }),
{
    let s = LayerSurface {
        output: 0,
        last_size: None,
        hovered: false,
        hidden: false,
        hide_generation: 0,
        cursor: (crate::float::single::F32 { bits: 0 }, crate::float::single::F32 { bits: 0 }),
    };
    lookups_are_independent(m.layer_surfaces, id, other, s);
    lookups_are_independent(m.probe_surfaces, id, other, 0);
}

/// A strip that is still there after others have gone is one that was there and
/// was not meant.
proof fn lemma_kept(list: Seq<Reserved>, gone: Gone, r: Reserved)
    ensures
        model::still_reserved(list, gone).contains(r) == (list.contains(r) && !gone.takes(r)),
    decreases list.len(),
{
    if list.len() > 0 {
        let front = list.drop_last();
        lemma_kept(front, gone, r);
        let rest = model::still_reserved(front, gone);
        let all = model::still_reserved(list, gone);
        if list.contains(r) {
            let i = list.index_of(r);
            if i < front.len() {
                assert(front[i] == r);
            }
        }
        if front.contains(r) {
            let i = front.index_of(r);
            assert(list[i] == r);
        }
        assert(list[list.len() - 1] == list.last());
        if !gone.takes(list.last()) {
            assert(all == rest.push(list.last()));
            assert(all[rest.len() as int] == list.last());
            if rest.contains(r) {
                let i = rest.index_of(r);
                assert(all[i] == r);
            }
            if all.contains(r) {
                let i = all.index_of(r);
                if i < rest.len() {
                    assert(rest[i] == r);
                }
            }
        }
    }
}

/// What is reserved on an output goes with the output and with nothing else; so
/// does what a probe has reported.
pub proof fn strips_go_with_their_output(m: Model, output: u64, id: u64, r: Reserved)
    requires
        strips::lookup(m.probe_surfaces, id) is Some,
    ensures
        m.output_removed(output).model.reserved.contains(r) == (m.reserved.contains(r) && r.output
            != output),
        m.on_layer_done(id).model.reserved.contains(r) == (m.reserved.contains(r) && r.probe
            != id),
{
    lemma_kept(m.reserved, Gone::Output(output), r);
    lemma_kept(m.reserved, Gone::Probe(id), r);
}

/// A strip that its probe no longer reports is gone, and no other; a report of a
/// surface that goes unknown changes nothing.
pub proof fn strips_go_when_reported(m: Model, id: u64, identifier: String, r: Reserved)
    ensures
        ({
            let event = model::OverlapEvent::LayerRemove { identifier };
            let after = m.on_overlap(event, id).model.reserved;
            &&& strips::lookup(m.probe_surfaces, id) is None ==> after == m.reserved
            &&& strips::lookup(m.probe_surfaces, id) is Some && m.reserved.contains(r) && !(r.probe
                == id && r.identifier@ == identifier@) ==> after.contains(r)
            &&& strips::lookup(m.probe_surfaces, id) is Some && r.probe == id && r.identifier@
                == identifier@ ==> !after.contains(r)
        }),
{
    let gone = Gone::Entry(id, identifier);
    lemma_kept(m.reserved, gone, r);
    lemma_all_left(m.reserved, gone);
    let left = model::still_reserved(m.reserved, gone);
    lemma_resized_bars(Model { reserved: left, ..m });
}

/// Nothing was taken where as many are left.
proof fn lemma_all_left(list: Seq<Reserved>, gone: Gone)
    ensures
        model::still_reserved(list, gone).len() <= list.len(),
        model::still_reserved(list, gone).len() == list.len() ==> model::still_reserved(list, gone)
            == list,
    decreases list.len(),
{
    if list.len() > 0 {
        lemma_all_left(list.drop_last(), gone);
        assert(list.drop_last().push(list.last()) =~= list);
    }
}

/// Previews follow their workspaces: one that is listed again shows what the first
/// workspace with its handle showed before, and one that is new shows nothing yet.
pub proof fn previews_follow_handles(old: Seq<Workspace>, list: Seq<Listed>, i: int, k: int)
    requires
        0 <= i < list.len(),
    ensures
        ({
            let shown = model::relisted(old, list);
            &&& shown.len() == list.len()
            &&& 0 <= k < old.len() && old[k].info.handle == shown[i].info.handle && (forall|j: int|
                0 <= j < k ==> (#[trigger] old[j]).info.handle != old[k].info.handle)
                ==> shown[i].img == old[k].img
            &&& (forall|j: int|
                0 <= j < old.len() ==> (#[trigger] old[j]).info.handle != shown[i].info.handle)
                ==> shown[i].img is None
        }),
{
    crate::bar::laws::previews_survive(old, list);
    let shown = model::relisted(old, list);
    lemma_workspace_place(old, shown[i].info.handle);
}

proof fn lemma_workspace_place(list: Seq<Workspace>, handle: u64)
    ensures
        match model::workspace_place(list, handle) {
            Some(i) => {
                &&& 0 <= i < list.len()
                &&& list[i].info.handle == handle
                &&& forall|k: int| 0 <= k < i ==> (#[trigger] list[k]).info.handle != handle
            },
            None => forall|k: int|
                0 <= k < list.len() ==> (#[trigger] list[k]).info.handle != handle,
        },
    decreases list.len(),
{
    if list.len() > 0 && list[0].info.handle != handle {
        let rest = list.skip(1);
        lemma_workspace_place(rest, handle);
        assert forall|k: int| 0 < k < list.len() implies #[trigger] list[k] == rest[k - 1] by {}
        match model::workspace_place(rest, handle) {
            Some(i) => {
                assert(rest[i] == list[i + 1]);
            },
            None => {},
        }
    }
}

/// Workspaces are ordered by the first coordinate in which they differ, the lower
/// one first; where one has no more coordinates, it comes first. No two different
/// places rank alike.
pub proof fn lower_coordinates_come_first(a: Seq<u32>, b: Seq<u32>, i: int)
    requires
        0 <= i <= a.len(),
        i < b.len(),
        forall|k: int| 0 <= k < i ==> #[trigger] a[k] == b[k],
        i == a.len() || a[i] < b[i],
    ensures
        model::lex_below(a, b),
        !model::lex_below(b, a),
    decreases i,
{
    if i > 0 {
        let (x, y) = (a.skip(1), b.skip(1));
        assert(a[0] == b[0]);
        assert forall|k: int| 0 <= k < i - 1 implies #[trigger] x[k] == y[k] by {
            assert(a[k + 1] == b[k + 1]);
        }
        lower_coordinates_come_first(x, y, i - 1);
    }
}

/// A shown player starts with its texts at their beginning and no volume on
/// display. Its album art is there at once if it is a file that could be read; from
/// the web it is fetched, and pending until then.
#[verifier::spinoff_prover]
pub proof fn players_start_afresh(m: Model, info: PlayerState, art: Option<u64>)
    ensures
        ({
            let out = m.on_media(Some(info), art);
            &&& out.model.media matches Some(shown) && {
                &&& shown.info == info
                &&& shown.marquee_offset == 0
                &&& shown.volume is None
                &&& info.art is None ==> shown.art is None && !shown.art_pending
                &&& info.art matches Some(ArtSource::Local(_)) ==> shown.art == art
                    && !shown.art_pending
                &&& info.art matches Some(ArtSource::Remote(url)) ==> shown.art is None
                    && shown.art_pending && out.acts.len() > 0 && out.acts[0] == Act::Plain(
                    Action::FetchArt(url),
                )
            }
            &&& same_bars(out.model.layer_surfaces, m.layer_surfaces)
            &&& !m.config.media_enabled ==> out.model.layer_surfaces == m.layer_surfaces
        }),
        m.on_media(None, art).model.media is None,
{
    let shown = MediaState {
        info,
        art: if info.art matches Some(ArtSource::Local(_)) {
            art
        } else {
            None
        },
        art_pending: info.art matches Some(ArtSource::Remote(_)),
        marquee_offset: 0,
        volume: None,
    };
    lemma_resized_bars(Model { media: Some(shown), ..m });
    lemma_resized_bars(Model { media: None, ..m });
}

/// Where a player that is shown makes bars longer or shorter, they are told so at
/// once.
#[verifier::rlimit(30)]
pub proof fn players_resize_bars(m: Model, state: Option<PlayerState>, art: Option<u64>, i: int)
    requires
        m.config.media_enabled,
        !m.config.fill,
        0 <= i < m.layer_surfaces.len(),
    ensures
        ({
            let next = m.step(Msg::Media(state, art)).model;
            &&& next.layer_surfaces.len() == m.layer_surfaces.len()
            &&& next.layer_surfaces[i].1.last_size == next.size_on(m.layer_surfaces[i].1.output)
        }),
{
    reveal(Model::resized);
    let next = m.step(Msg::Media(state, art)).model;
    let before = Model { layer_surfaces: m.layer_surfaces, ..next };
    assert forall|o: u64| #[trigger] next.size_on(o) == before.size_on(o) by {
        reveal(Model::size_on);
    }
}

/// Listed workspaces resize the bars that hold them.
#[verifier::rlimit(30)]
pub proof fn lists_resize_bars(m: Model, list: Vec<Listed>, i: int)
    requires
        !m.config.fill,
        0 <= i < m.layer_surfaces.len(),
    ensures
        ({
            let next = m.step(Msg::Wayland(BackendEvent::Workspaces(list))).model;
            &&& next.layer_surfaces.len() == m.layer_surfaces.len()
            &&& next.layer_surfaces[i].1.last_size == next.size_on(m.layer_surfaces[i].1.output)
            &&& next.workspaces == model::relisted(m.workspaces, list@)
        }),
{
    reveal(Model::resized);
    let next = m.step(Msg::Wayland(BackendEvent::Workspaces(list))).model;
    let before = Model { layer_surfaces: m.layer_surfaces, ..next };
    assert forall|o: u64| #[trigger] next.size_on(o) == before.size_on(o) by {
        reveal(Model::size_on);
    }
}

/// Album art that arrives is shown if it is what the player that is shown now has
/// asked for; art of another address changes nothing.
#[verifier::rlimit(30)]
pub proof fn late_art_is_dropped(m: Model, url: String, image: Option<u64>)
    ensures
        ({
            let out = m.step(Msg::MediaArt(url, image));
            &&& out.acts.len() == 0
            &&& m.media is None ==> out.model == m
            &&& m.media matches Some(before) ==> {
                let wanted = (before.info.art matches Some(ArtSource::Remote(w)) && w@ == url@);
                &&& !wanted ==> out.model == m
                &&& wanted ==> (out.model.media matches Some(after) && after.art == image
                    && !after.art_pending && after.info == before.info && after.marquee_offset
                    == before.marquee_offset)
            }
        }),
{
}

/// A tick moves long texts on by one character and does nothing else.
#[verifier::rlimit(30)]
pub proof fn ticks_move_texts(m: Model)
    ensures
        ({
            let out = m.step(Msg::MarqueeTick);
            &&& out.acts.len() == 0
            &&& out.model == (Model { media: out.model.media, ..m })
            &&& m.media matches Some(before) ==> (out.model.media matches Some(after) && (
            before.marquee_offset < usize::MAX ==> after.marquee_offset == before.marquee_offset
                + 1) && after == (MediaState { marquee_offset: after.marquee_offset, ..before }))
            &&& m.media is None ==> out.model.media is None
        }),
{
}

/// Scrolling up makes the player louder and scrolling down makes it softer, by the
/// same amount; not scrolling does nothing, nor does scrolling without a player.
#[verifier::rlimit(30)]
pub proof fn scrolling_changes_the_volume(m: Model, steps: isize)
    ensures
        ({
            let out = m.step(Msg::MediaScroll(steps));
            &&& out.model == m
            &&& m.media is None || steps == 0 ==> out.acts.len() == 0
            &&& m.media matches Some(media) ==> steps != 0 ==> out.acts.len() == 1 && (
            out.acts[0] matches Act::Plain(Action::AdjustVolume { player, delta }) && player
                == media.info.bus_name && delta.negative() == (steps < 0)
                && delta.mag() == model::volume_step(1).mag() && delta.mag() > 0)
        }),
{
}

/// After the machine has slept every preview is captured anew.
#[verifier::rlimit(30)]
pub proof fn waking_refreshes_captures(m: Model, event: crate::backend::power::Event)
    ensures
        m.step(Msg::Power(event)).model == m,
        m.backend ==> m.step(Msg::Power(event)).acts == seq![
            Act::Plain(Action::Send(Cmd::RefreshCaptures)),
        ],
        !m.backend ==> m.step(Msg::Power(event)).acts.len() == 0,
{
}

/// Another look of the panel blurs or unblurs every bar as it asks for, and changes
/// nothing else; the same look does nothing.
#[verifier::rlimit(30)]
pub proof fn looks_reach_every_bar(m: Model, theme: PanelTheme, i: int)
    requires
        0 <= i < m.layer_surfaces.len(),
    ensures
        ({
            let out = m.step(Msg::PanelTheme(theme));
            &&& theme.same(m.panel_theme) ==> out.model == m && out.acts.len() == 0
            &&& !theme.same(m.panel_theme) ==> {
                &&& out.model == (Model { panel_theme: theme, ..m })
                &&& out.acts.len() == m.layer_surfaces.len()
                &&& out.acts[i] == Act::Plain(
                    Action::SetBlur {
                        id: m.layer_surfaces[i].0,
                        enabled: config::blur_wanted(
                            m.config.blur,
                            m.frosted_panel,
                            theme.opacity,
                        ),
                    },
                )
            }
        }),
{
}

/// A context menu opens on the bar it is asked for, where the pointer was last seen
/// there, and tells of the workspace that was pressed.
#[verifier::rlimit(30)]
pub proof fn menus_open_at_the_pointer(
    m: Model,
    bar: u64,
    x: int,
    y: int,
    workspace: Option<(u64, String)>,
)
    requires
        0 <= x <= 0x100_0000,
        0 <= y <= 0x100_0000,
        strips::lookup(m.layer_surfaces, bar) matches Some(s) && s.cursor == (
            crate::float::single::F32::of_int(x),
            crate::float::single::F32::of_int(y),
        ),
        workspace is Some || m.context_menu is None,
    ensures
        ({
            let out = m.step(Msg::OpenContextMenu(bar, workspace));
            let id = m.next_id;
            &&& (out.model.context_menu matches Some(menu) && menu.id == id && menu.workspace
                == workspace)
            &&& (out.acts.last() matches Act::Plain(
                Action::CreateMenu { id: made, parent, width, height, x: at, y: down },
            ) && made == id && parent == bar && at == x && down == y && width == 220 && (height
                == 84) == (workspace is Some))
            &&& m.context_menu matches Some(before) ==> out.acts[0] == Act::Plain(
                Action::DestroyPopup(before.id),
            )
        }),
{
    crate::float::exact::whole_numbers_are_exact(x);
    crate::float::exact::whole_numbers_are_exact(y);
    crate::float::exact::whole_truncation(x, i32::MAX as int);
    crate::float::exact::whole_truncation(y, i32::MAX as int);
}

/// A moved pointer is remembered for its bar alone.
#[verifier::rlimit(30)]
pub proof fn pointers_are_remembered(
    m: Model,
    id: u64,
    other: u64,
    point: (crate::float::single::F32, crate::float::single::F32),
)
    requires
        strips::lookup(m.layer_surfaces, id) is Some,
    ensures
        ({
            let out = m.step(Msg::BarMove(id, point));
            let before = strips::lookup(m.layer_surfaces, id);
            let after = strips::lookup(out.model.layer_surfaces, id);
            &&& out.acts.len() == 0
            &&& after is Some && after->0.cursor == point
            &&& after->0 == (LayerSurface { cursor: point, ..before->0 })
            &&& other != id ==> strips::lookup(out.model.layer_surfaces, other) == strips::lookup(
                m.layer_surfaces,
                other,
            )
        }),
{
    let s = strips::lookup(m.layer_surfaces, id)->0;
    let moved = LayerSurface { cursor: point, ..s };
    lookups_are_independent(m.layer_surfaces, id, other, moved);
    lemma_replaced(m.layer_surfaces, id, moved);
}

proof fn lemma_replaced<V>(table: Seq<(u64, V)>, id: u64, value: V)
    requires
        strips::lookup(table, id) is Some,
    ensures
        strips::lookup(model::replaced(table, id, value), id) == Some(value),
    decreases table.len(),
{
    let next = model::replaced(table, id, value);
    if table[0].0 == id {
        assert(next[0] == (id, value));
    } else {
        lemma_replaced(table.skip(1), id, value);
        assert(next.skip(1) =~= model::replaced(table.skip(1), id, value));
    }
}

/// Choosing to rename closes the menu and opens a dialog with the workspace's
/// present name; only one such dialog is open at a time.
#[verifier::rlimit(30)]
pub proof fn renaming_starts_with_the_name(m: Model, handle: u64, name: String)
    requires
        m.context_menu matches Some(menu) && menu.workspace == Some((handle, name)),
    ensures
        ({
            let out = m.step(Msg::MenuRename);
            &&& out.model.context_menu is None
            &&& out.acts[0] == Act::Plain(Action::DestroyPopup(m.context_menu->0.id))
            &&& m.rename is None ==> {
                &&& (out.model.rename matches Some(d) && d.workspace == handle && d.value == name
                    && d.id == m.next_id)
                &&& out.acts.len() == 2 && out.acts[1] is Plain && out.acts[1]->Plain_0
                    is CreateRename
            }
            &&& m.rename is Some ==> out.model.rename == m.rename && out.acts.len() == 1
        }),
{
}

/// Cancelling closes the rename dialog without telling anyone of a name.
#[verifier::rlimit(30)]
pub proof fn cancelled_names_are_not_sent(m: Model)
    ensures
        ({
            let out = m.step(Msg::RenameCancel);
            &&& out.model.rename is None
            &&& m.rename is None ==> out.acts.len() == 0
            &&& m.rename matches Some(d) ==> out.acts == seq![
                Act::Plain(Action::DestroySurface(d.id)),
            ]
        }),
{
}

/// A button of the media block acts on the player that is shown.
#[verifier::rlimit(30)]
pub proof fn buttons_reach_the_player(
    m: Model,
    control: crate::backend::media::player::Control,
)
    ensures
        m.step(Msg::MediaControl(control)).model == m,
        m.media is None ==> m.step(Msg::MediaControl(control)).acts.len() == 0,
        m.media matches Some(media) ==> m.step(Msg::MediaControl(control)).acts == seq![
            Act::Plain(Action::MediaControl { player: media.info.bus_name, control }),
        ],
{
}

/// A changed setting is written and not put into effect until the written
/// configuration is read back; without a store nothing is written.
#[verifier::rlimit(30)]
pub proof fn settings_are_written_first(m: Model, msg: crate::settings::SettingsMsg)
    ensures
        m.step(Msg::Settings(msg)).model == m,
        !m.store ==> m.step(Msg::Settings(msg)).acts.len() == 0,
        forall|k: int|
            0 <= k < m.step(Msg::Settings(msg)).acts.len() ==> (
            #[trigger] m.step(Msg::Settings(msg)).acts[k]) is Plain && m.step(
                Msg::Settings(msg),
            ).acts[k]->Plain_0 is Store,
{
}

/// Another preferred player is told to the media backend, and only another one.
#[verifier::rlimit(30)]
pub proof fn preferences_are_told(m: Model, c: Config)
    requires
        !c.same(m.config),
    ensures
        ({
            let acts = m.step(Msg::Config(c)).acts;
            &&& acts.len() > 0 && acts[0] == Act::Plain(Action::SyncPickers)
            &&& c.preferred_player@ != m.config.preferred_player@ ==> acts.len() > 1 && acts[1]
                == Act::Plain(Action::SetPreferred(c.preferred_player))
        }),
        m.step(Msg::Config(c)).model.config == c,
{
    reveal(Model::recreated);
    reveal(Model::restyled);
    let next = Model { config: c, ..m };
    lemma_created_on(
        Model { layer_surfaces: Seq::empty(), ..next },
        m.outputs.len() as int,
    );
    lemma_autohide_on(next, m.layer_surfaces.len() as int);
    lemma_resized_bars(next.autohide_on(m.layer_surfaces.len() as int).model);
    lemma_resized_bars(next);
}

/// Scrolling by so many steps goes as many places back from the active workspace,
/// round and round.
pub proof fn scrolling_counts_steps(list: Seq<Workspace>, at: int, steps: isize, to: int)
    requires
        model::active_place(list) == Some(at),
        list.len() <= 0x4000_0000,
        steps != 0,
        -0x4000_0000 <= steps <= 0x4000_0000,
        0 <= at < list.len(),
        0 <= to < list.len(),
        (at - steps - to) % (list.len() as int) == 0,
    ensures
        model::scrolled_to(list, steps) == Some(list[to].info.handle),
{
    let n = list.len() as int;
    let d = at - steps;
    assert((at as isize).wrapping_sub(steps) == d);
    vstd::arithmetic::div_mod::lemma_fundamental_div_mod(d - to, n);
    let q = (d - to) / n;
    assert(d == q * n + to) by (nonlinear_arith)
        requires
            d - to == n * q + 0,
    ;
    vstd::arithmetic::div_mod::lemma_fundamental_div_mod_converse(d, n, q, to);
}

/// One step of the wheel is a twentieth of full volume, but for the rounding of the
/// last bit.
pub proof fn steps_are_a_twentieth(steps: isize)
    requires
        steps != 0,
    ensures
        ({
            let one = crate::float::whole::one(53);
            let size = model::volume_step(steps).size();
            one <= 20 * size && (20 * size - one) * 0x1_0000_0000_0000 < one
        }),
        model::volume_step(steps).negative() == (steps < 0),
{
    let mag: nat = 0x3fa9_9999_9999_999a;
    crate::float::rounding::lemma_pow2_steps();
    vstd::arithmetic::power2::lemma2_to64();
    vstd::arithmetic::power2::lemma2_to64_rest();
    assert(model::volume_step(steps).mag() == mag);
    crate::float::rounding::lemma_quotient(mag, 0x10_0000_0000_0000, 0x3fa);
    let e = vstd::arithmetic::power2::pow2(1017);
    vstd::arithmetic::power2::lemma_pow2_pos(1017);
    vstd::arithmetic::power2::lemma_pow2_adds(57, 1017);
    assert(vstd::arithmetic::power2::pow2(57) == 0x200_0000_0000_0000);
    assert(crate::float::rounding::units(53, mag) == 0x19_9999_9999_999a * e);
}

/// From the moment that the backend takes commands it knows where the bar is.
#[verifier::rlimit(30)]
pub proof fn backends_are_told_at_once(m: Model)
    ensures
        ({
            let out = m.step(Msg::Wayland(BackendEvent::CmdSender));
            &&& out.model == (Model { backend: true, ..m })
            &&& out.acts.len() == 1
            &&& (out.acts[0] matches Act::Report(f) && tells_of(f, m))
        }),
{
    let next = Model { backend: true, ..m };
    reports_tell_of_the_bar(next);
}

/// The settings open once, as a surface of their own.
pub proof fn settings_open_once(m: Model)
    ensures
        ({
            let out = m.settings_opened();
            &&& m.window is Some ==> out.model == m && out.acts.len() == 0
            &&& m.window is None ==> {
                &&& out.model.window == Some(m.next_id)
                &&& out.acts.len() > 0
                &&& out.acts.last() == Act::Plain(
                    Action::CreateSettings { id: m.next_id, width: 520, height: 720 },
                )
            }
        }),
{
}

/// Closing the settings takes their surface away and changes nothing else.
pub proof fn settings_close_their_surface(m: Model, id: u64)
    requires
        m.window == Some(id),
    ensures
        ({
            let out = m.settings_closed();
            &&& out.model == (Model { window: None, ..m })
            &&& out.acts.len() > 0
            &&& out.acts.last() == Act::Plain(Action::DestroySurface(id))
        }),
{
}

/// Only a request to close the window of the settings closes them.
#[verifier::rlimit(30)]
pub proof fn other_windows_do_not_close_settings(m: Model, id: u64)
    ensures
        m.window == Some(id) ==> m.step(Msg::CloseWindow(id)) == m.settings_closed(),
        m.window != Some(id) ==> m.step(Msg::CloseWindow(id)) == m.still(),
{
}

/// A popup that is gone is forgotten if it is the menu.
#[verifier::rlimit(30)]
pub proof fn gone_menus_are_forgotten(m: Model, id: u64)
    ensures
        ({
            let out = m.step(Msg::WaylandEvent(model::WaylandEvent::PopupDone(id)));
            &&& out.acts.len() == 0
            &&& (m.context_menu matches Some(menu) && menu.id == id) ==> out.model == (Model {
                context_menu: None,
                ..m
            })
            &&& !(m.context_menu matches Some(menu) && menu.id == id) ==> out.model == m
        }),
{
}

proof fn lemma_surface_on(table: Seq<(u64, LayerSurface)>, output: u64, i: int)
    requires
        0 <= i < table.len(),
        table[i].1.output == output,
        forall|k: int| 0 <= k < i ==> (#[trigger] table[k]).1.output != output,
    ensures
        model::surface_on(table, output) == Some(table[i].0),
    decreases table.len(),
{
    if i > 0 {
        let rest = table.skip(1);
        assert(table[0].1.output != output);
        assert forall|k: int| 0 <= k < i - 1 implies (#[trigger] rest[k]).1.output != output by {
            assert(rest[k] == table[k + 1]);
        }
        assert(rest[i - 1] == table[i]);
        lemma_surface_on(rest, output, i - 1);
    }
}

proof fn lemma_probe_on(table: Seq<(u64, u64)>, output: u64, i: int)
    requires
        0 <= i < table.len(),
        watches(table[i], output),
        forall|k: int| 0 <= k < i ==> !watches(#[trigger] table[k], output),
    ensures
        model::probe_on(table, output) == Some(table[i].0),
    decreases table.len(),
{
    if i > 0 {
        let rest = table.skip(1);
        assert(!watches(table[0], output));
        assert forall|k: int| 0 <= k < i - 1 implies !watches(#[trigger] rest[k], output) by {
            assert(rest[k] == table[k + 1]);
        }
        assert(rest[i - 1] == table[i]);
        lemma_probe_on(rest, output, i - 1);
    }
}

/// A probe watches an output.
pub open spec fn watches(probe: (u64, u64), output: u64) -> bool {
    probe.1 == output
}

/// With an output its bar and its probe go, and no other bar or probe.
pub proof fn gone_outputs_take_their_bar(
    m: Model,
    output: u64,
    bar: int,
    probe: int,
    other: u64,
)
    requires
        0 <= bar < m.layer_surfaces.len(),
        m.layer_surfaces[bar].1.output == output,
        forall|k: int| 0 <= k < bar ==> (#[trigger] m.layer_surfaces[k]).1.output != output,
        0 <= probe < m.probe_surfaces.len(),
        watches(m.probe_surfaces[probe], output),
        forall|k: int| 0 <= k < probe ==> !watches(#[trigger] m.probe_surfaces[k], output),
    ensures
        ({
            let out = m.on_output(model::OutputEvent::Removed, output);
            let b = m.layer_surfaces[bar].0;
            let p = m.probe_surfaces[probe].0;
            let n = out.model;
            &&& out.acts.contains(Act::Plain(Action::DestroySurface(b)))
            &&& out.acts.contains(Act::Plain(Action::DestroySurface(p)))
            &&& strips::lookup(n.layer_surfaces, b) is None
            &&& strips::lookup(n.probe_surfaces, p) is None
            &&& other != b ==> strips::lookup(n.layer_surfaces, other) == strips::lookup(
                m.layer_surfaces,
                other,
            )
            &&& other != p ==> strips::lookup(n.probe_surfaces, other) == strips::lookup(
                m.probe_surfaces,
                other,
            )
        }),
{
    lemma_surface_on(m.layer_surfaces, output, bar);
    lemma_probe_on(m.probe_surfaces, output, probe);
    let (b, s) = m.layer_surfaces[bar];
    let p = m.probe_surfaces[probe].0;
    lookups_are_independent(m.layer_surfaces, b, other, s);
    lookups_are_independent(m.probe_surfaces, p, other, output);
    let out = m.on_output(model::OutputEvent::Removed, output);
    let next = Model {
        outputs: match model::output_place(m.outputs, output) {
            Some(i) => m.outputs.remove(i),
            None => m.outputs,
        },
        reserved: model::still_reserved(m.reserved, Gone::Output(output)),
        ..m
    };
    let told = next.report();
    assert(out.acts == told + model::one(Action::DestroySurface(b)) + model::one(
        Action::DestroySurface(p),
    ));
    assert(out.acts[told.len() as int] == Action::DestroySurface(b).act());
    assert(out.acts[told.len() as int + 1] == Action::DestroySurface(p).act());
}

/// Scrolling over a bar switches to the workspace that it leads to among those of the
/// bar's output, and changes nothing by itself.
pub proof fn scrolling_switches_workspaces(m: Model, output: u64, steps: isize)
    requires
        m.backend,
    ensures
        ({
            let out = m.step(Msg::OnScroll(output, steps));
            let to = model::scrolled_to(geometry::shown_on(m.workspaces, output), steps);
            &&& out.model == m
            &&& steps == 0 ==> out.acts.len() == 0
            &&& to is None ==> out.acts.len() == 0
            &&& to matches Some(handle) ==> out.acts == seq![
                Act::Plain(Action::Send(Cmd::ActivateWorkspace(handle))),
            ]
        }),
{
}

/// A strip that is newly reserved on an output is told to the backend, and bars that
/// are as long as their content take their new size.
pub proof fn reserved_strips_resize_bars(
    m: Model,
    id: u64,
    identifier: String,
    namespace: String,
    exclusive: u32,
    rect: geometry::Rectangle,
    i: int,
)
    requires
        strips::lookup(m.probe_surfaces, id) is Some,
        0 <= i < m.layer_surfaces.len(),
    ensures
        ({
            let event = model::OverlapEvent::LayerAdd { identifier, namespace, exclusive, rect };
            let out = m.on_overlap(event, id);
            let added = out.model.reserved.last();
            &&& added.output == strips::lookup(m.probe_surfaces, id)->0
            &&& added.namespace == namespace && added.exclusive == exclusive && added.rect == rect
            &&& m.backend ==> (out.acts[0] matches Act::Report(f) && tells_of(f, out.model))
            &&& !m.config.fill ==> out.model.layer_surfaces[i].1.last_size == out.model.size_on(
                m.layer_surfaces[i].1.output,
            )
        }),
{
    let event = model::OverlapEvent::LayerAdd { identifier, namespace, exclusive, rect };
    let out = m.on_overlap(event, id);
    let added = Reserved {
        probe: id,
        identifier,
        output: strips::lookup(m.probe_surfaces, id)->0,
        namespace,
        exclusive,
        rect,
    };
    let next = Model {
        reserved: model::still_reserved(m.reserved, Gone::Entry(id, identifier)).push(added),
        ..m
    };
    lemma_told_and_resized(m, next, out.model, i);
    lemma_resized_bars(next);
    assert(out.model == next.resized().model);
    assert(next.reserved.last() == added);
    assert(out.acts == next.report() + next.resized().acts);
}

/// An output of another size is told to the backend, and bars that are as long as
/// their content take their new size.
pub proof fn informed_outputs_resize_bars(m: Model, output: u64, info: OutputInfo, i: int)
    requires
        0 <= i < m.layer_surfaces.len(),
    ensures
        ({
            let out = m.on_output(model::OutputEvent::InfoUpdate(info), output);
            &&& m.backend ==> (out.acts[0] matches Act::Report(f) && tells_of(f, out.model))
            &&& !m.config.fill ==> out.model.layer_surfaces[i].1.last_size == out.model.size_on(
                m.layer_surfaces[i].1.output,
            )
        }),
{
    let out = m.on_output(model::OutputEvent::InfoUpdate(info), output);
    let next = Model {
        outputs: match model::output_place(m.outputs, output) {
            Some(j) => m.outputs.update(j, model::informed(m.outputs[j], info)),
            None => m.outputs,
        },
        ..m
    };
    lemma_told_and_resized(m, next, out.model, i);
    assert(out.acts == next.report() + next.resized().acts);
}

proof fn lemma_told_and_resized(m: Model, next: Model, done: Model, i: int)
    requires
        0 <= i < m.layer_surfaces.len(),
        next.layer_surfaces == m.layer_surfaces,
        done == next.resized().model,
    ensures
        next.backend ==> (next.report()[0] matches Act::Report(f) && tells_of(f, done)),
        next.backend ==> next.report().len() == 1,
        !next.config.fill ==> done.layer_surfaces[i].1.last_size == done.size_on(
            m.layer_surfaces[i].1.output,
        ),
{
    reports_tell_of_the_bar(next);
    lemma_resized_bars(next);
    if !next.config.fill {
        reveal(Model::resized);
        assert forall|o: u64| #[trigger] done.size_on(o) == next.size_on(o) by {
            reveal(Model::size_on);
        }
    }
}

/// Once an output was seen alive the compositor can be talked to, and stays so.
pub proof fn connections_stay(
    m: Model,
    event: model::OutputEvent,
    output: u64,
    alive: bool,
)
    requires
        event is Created,
    ensures
        m.step(
            Msg::WaylandEvent(model::WaylandEvent::Output { event, output, alive }),
        ).model.connected == (m.connected || alive),
{
}

} // verus!
