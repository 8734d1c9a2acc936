//! What the bar keeps to, over any run of events.

use crate::backend::captures;
use crate::backend::captures::Cmd;
use crate::backend::strips;
use crate::bar::actions::{Act, Action};
use crate::bar::geometry;
use crate::bar::geometry::{Output, Reserved, Thumbnail, Workspace, AUTOHIDE_WAIT};
use crate::bar::identity;
use crate::bar::model;
use crate::bar::model::{
    BackendEvent, ContextMenu, Gone, LayerSurface, Listed, MediaState, Model, Msg, Outcome,
    RenameDialog,
};
use crate::bar::tables;
use crate::config::SurfaceSize;
use crate::float::double::F64;
use crate::sort;
use crate::sort::Ranked;
use vstd::prelude::*;

verus! {

/// A timer that was started before the pointer came or went again does nothing:
/// only the latest one hides the bar.
pub proof fn stale_timers_do_nothing(m: Model, id: u64, generation: u64)
    requires
        strips::lookup(m.layer_surfaces, id) matches Some(s) ==> s.hide_generation != generation,
    ensures
        m.step(Msg::HideTimeout(id, generation)) == m.still(),
{
}

/// A bar does not hide while the pointer is over it.
pub proof fn hovered_bars_stay(m: Model, id: u64, generation: u64)
    requires
        strips::lookup(m.layer_surfaces, id) matches Some(s) ==> s.hovered,
    ensures
        m.step(Msg::HideTimeout(id, generation)) == m.still(),
{
}

/// Looking up what was put in.
proof fn lemma_lookup_replaced<V>(table: Seq<(u64, V)>, id: u64, value: V)
    requires
        strips::lookup(table, id) is Some,
    ensures
        strips::lookup(model::replaced(table, id, value), id) == Some(value),
    decreases table.len(),
{
    let next = model::replaced(table, id, value);
    if table[0].0 == id {
        assert(next[0] == (id, value));
    } else {
        lemma_lookup_replaced(table.skip(1), id, value);
        assert(next.skip(1) =~= model::replaced(table.skip(1), id, value));
    }
}

/// The pointer comes to a bar, or leaves it.
#[verifier::opaque]
pub open spec fn pointed(m: Model, id: u64, over: bool) -> Outcome {
    if over {
        m.step(Msg::BarEnter(id))
    } else {
        m.step(Msg::BarExit(id))
    }
}

/// The state after the pointer has come to a bar (`true`) and left it (`false`)
/// so many times.
pub open spec fn moved(m: Model, id: u64, moves: Seq<bool>) -> Model
    decreases moves.len(),
{
    if moves.len() == 0 {
        m
    } else {
        pointed(moved(m, id, moves.drop_last()), id, moves.last()).model
    }
}

/// A timer that was started when the pointer left never hides the bar once the
/// pointer has come back, however often it comes and goes from then on: its
/// generation is over. Generations are counted in 64 bits, so this holds for
/// any number of moves that a pointer can make.
pub proof fn overtaken_timers_never_hide(m: Model, id: u64, moves: Seq<bool>)
    requires
        m.config.autohide,
        strips::lookup(m.layer_surfaces, id) is Some,
        moves.len() + 2 <= u64::MAX,
    ensures
        ({
            let left = pointed(m, id, false);
            let generation = strips::lookup(left.model.layer_surfaces, id)->0.hide_generation;
            let back = pointed(left.model, id, true).model;
            let now = moved(back, id, moves);
            &&& left.acts == model::one(
                Action::HideAfter { id, generation, wait: AUTOHIDE_WAIT },
            )
            &&& strips::lookup(now.layer_surfaces, id) matches Some(s) && s.hide_generation
                != generation
            &&& now.step(Msg::HideTimeout(id, generation)) == now.still()
        }),
{
    lemma_exit(m, id);
    let left = pointed(m, id, false).model;
    let generation = strips::lookup(left.layer_surfaces, id)->0.hide_generation;
    lemma_enter(left, id);
    let back = pointed(left, id, true).model;
    lemma_moved(back, id, moves);
    stale_timers_do_nothing(moved(back, id, moves), id, generation);
}

/// A generation that was raised so often.
spec fn raised(generation: u64, by: int) -> int {
    (generation + by) % 0x1_0000_0000_0000_0000
}

proof fn lemma_exit(m: Model, id: u64)
    requires
        m.config.autohide,
        strips::lookup(m.layer_surfaces, id) is Some,
    ensures
        ({
            let s = strips::lookup(m.layer_surfaces, id)->0;
            let next = pointed(m, id, false);
            let t = strips::lookup(next.model.layer_surfaces, id)->0;
            &&& next.model.config == m.config
            &&& strips::lookup(next.model.layer_surfaces, id) is Some
            &&& t.hidden == s.hidden
            &&& t.hide_generation == raised(s.hide_generation, 1)
            &&& next.acts == model::one(
                Action::HideAfter { id, generation: t.hide_generation, wait: AUTOHIDE_WAIT },
            )
        }),
{
    reveal(pointed);
    let s = strips::lookup(m.layer_surfaces, id)->0;
    let away = LayerSurface { hovered: false, ..s };
    lemma_lookup_replaced(m.layer_surfaces, id, away);
    let first = m.with_surface(id, away);
    lemma_lookup_replaced(
        first.layer_surfaces,
        id,
        LayerSurface { hide_generation: s.hide_generation.wrapping_add(1), ..away },
    );
}

proof fn lemma_enter(m: Model, id: u64)
    requires
        m.config.autohide,
        strips::lookup(m.layer_surfaces, id) is Some,
    ensures
        ({
            let s = strips::lookup(m.layer_surfaces, id)->0;
            let next = pointed(m, id, true);
            let t = strips::lookup(next.model.layer_surfaces, id)->0;
            &&& next.model.config == m.config
            &&& strips::lookup(next.model.layer_surfaces, id) is Some
            &&& !t.hidden
            &&& t.hide_generation == raised(
                s.hide_generation,
                if s.hidden {
                    2
                } else {
                    1
                },
            )
        }),
{
    reveal(pointed);
    let s = strips::lookup(m.layer_surfaces, id)->0;
    let over = LayerSurface {
        hovered: true,
        hide_generation: s.hide_generation.wrapping_add(1),
        ..s
    };
    lemma_lookup_replaced(m.layer_surfaces, id, over);
    let first = m.with_surface(id, over);
    lemma_lookup_replaced(
        first.layer_surfaces,
        id,
        LayerSurface {
            hidden: false,
            hide_generation: over.hide_generation.wrapping_add(1),
            ..over
        },
    );
}

proof fn lemma_moved(m: Model, id: u64, moves: Seq<bool>)
    requires
        m.config.autohide,
        strips::lookup(m.layer_surfaces, id) matches Some(s) && !s.hidden,
    ensures
        ({
            let s = strips::lookup(m.layer_surfaces, id)->0;
            let now = moved(m, id, moves);
            let t = strips::lookup(now.layer_surfaces, id)->0;
            &&& now.config == m.config
            &&& strips::lookup(now.layer_surfaces, id) is Some
            &&& !t.hidden
            &&& t.hide_generation == raised(s.hide_generation, moves.len() as int)
        }),
    decreases moves.len(),
{
    if moves.len() > 0 {
        let before = moved(m, id, moves.drop_last());
        lemma_moved(m, id, moves.drop_last());
        if moves.last() {
            lemma_enter(before, id);
        } else {
            lemma_exit(before, id);
        }
    }
}

/// A changed volume is shown, and a timer is started that ends it.
pub proof fn volume_is_shown_for_a_while(m: Model, volume: F64)
    requires
        m.media is Some,
    ensures
        ({
            let shown = m.step(Msg::MediaVolume(Some(volume)));
            let generation = shown.model.volume_generation;
            &&& generation != m.volume_generation
            &&& shown.model.media == Some(MediaState { volume: Some(volume), ..m.media->0 })
            &&& shown.acts == model::one(
                Action::HideVolumeAfter { generation, wait: model::VOLUME_WAIT },
            )
        }),
{
}

/// Only the timer of the last change ends the display of the volume; those of
/// earlier changes do nothing.
pub proof fn latest_volume_timer_counts(m: Model, generation: u64)
    requires
        m.media is Some,
    ensures
        generation != m.volume_generation ==> m.step(Msg::MediaVolumeHide(generation))
            == m.still(),
        generation == m.volume_generation ==> m.step(Msg::MediaVolumeHide(generation)).model.media
            == Some(MediaState { volume: None, ..m.media->0 }),
{
}

/// A bar that the pointer has left hides when its timer runs out: it slides off
/// the screen but for the handle.
#[verifier::spinoff_prover]
#[verifier::rlimit(40)]
pub proof fn left_bars_hide(m: Model, id: u64)
    requires
        m.config.autohide,
        strips::lookup(m.layer_surfaces, id) matches Some(s) && !s.hidden,
    ensures
        ({
            let left = m.step(Msg::BarExit(id));
            let s = strips::lookup(left.model.layer_surfaces, id)->0;
            let generation = s.hide_generation;
            let gone = left.model.step(Msg::HideTimeout(id, generation));
            &&& strips::lookup(left.model.layer_surfaces, id) is Some
            &&& left.acts == model::one(
                Action::HideAfter { id, generation, wait: AUTOHIDE_WAIT },
            )
            &&& strips::lookup(gone.model.layer_surfaces, id) == Some(
                LayerSurface { hidden: true, ..s },
            )
            &&& gone.acts.len() > 0
            &&& gone.acts.last() == (Action::SetMargin {
                id,
                margin: geometry::hiding_margin(m.config.edge, m.config.size),
            }).act()
        }),
{
    let s = strips::lookup(m.layer_surfaces, id)->0;
    let away = LayerSurface { hovered: false, ..s };
    lemma_lookup_replaced(m.layer_surfaces, id, away);
    let first = m.with_surface(id, away);
    let timed = LayerSurface { hide_generation: s.hide_generation.wrapping_add(1), ..away };
    lemma_lookup_replaced(first.layer_surfaces, id, timed);
    let second = first.with_surface(id, timed);
    lemma_lookup_replaced(second.layer_surfaces, id, LayerSurface { hidden: true, ..timed });
}

/// A hidden bar that the pointer comes to is back on the screen, and the timers
/// that were running no longer count.
#[verifier::spinoff_prover]
#[verifier::rlimit(40)]
pub proof fn pointer_brings_bars_back(m: Model, id: u64)
    requires
        m.config.autohide,
        strips::lookup(m.layer_surfaces, id) matches Some(s) && s.hidden,
    ensures
        ({
            let s = strips::lookup(m.layer_surfaces, id)->0;
            let back = m.step(Msg::BarEnter(id));
            let t = strips::lookup(back.model.layer_surfaces, id)->0;
            &&& strips::lookup(back.model.layer_surfaces, id) is Some
            &&& t.hovered
            &&& !t.hidden
            &&& t.hide_generation != s.hide_generation
            &&& back.acts.last() == (Action::SetMargin { id, margin: (0, 0, 0, 0) }).act()
        }),
{
    let s = strips::lookup(m.layer_surfaces, id)->0;
    let over = LayerSurface {
        hovered: true,
        hide_generation: s.hide_generation.wrapping_add(1),
        ..s
    };
    lemma_lookup_replaced(m.layer_surfaces, id, over);
    let first = m.with_surface(id, over);
    let shown = LayerSurface {
        hidden: false,
        hide_generation: over.hide_generation.wrapping_add(1),
        ..over
    };
    lemma_lookup_replaced(first.layer_surfaces, id, shown);
}

/// Opening the settings pauses captures; closing them lets captures go on,
/// unless every bar is hidden.
#[verifier::spinoff_prover]
#[verifier::rlimit(40)]
pub proof fn settings_pause_captures(m: Model)
    requires
        m.backend,
        m.window is None,
    ensures
        ({
            let opened = m.step(Msg::OpenSettings);
            let closed = opened.model.step(Msg::CloseSettings);
            &&& opened.model.paused()
            &&& opened.acts[0] == Act::Report(opened.model.filter())
            &&& opened.model.filter().paused
            &&& closed.acts[0] == Act::Report(closed.model.filter())
            &&& closed.model.filter().paused == m.all_hidden()
            &&& closed.model == (Model { next_id: closed.model.next_id, ..m })
        }),
{
    reveal(Model::filter);
    let opened = m.step(Msg::OpenSettings);
    let closed = opened.model.step(Msg::CloseSettings);
    assert(closed.model =~= (Model { next_id: closed.model.next_id, ..m }));
}

/// Every report to the backend that hiding or showing a bar brings tells the
/// state that the bar is in from then on.
pub proof fn hiding_is_reported(m: Model, id: u64)
    requires
        m.backend,
        strips::lookup(m.layer_surfaces, id) is Some,
    ensures
        m.hidden(id).acts[0] == Act::Report(m.hidden(id).model.filter()),
        m.revealed(id).acts[0] == Act::Report(m.revealed(id).model.filter()),
{
}

/// Bars are resized only where their size has changed: doing it again does
/// nothing.
pub proof fn resizing_again_does_nothing(m: Model)
    ensures
        m.resized().model.resized() == m.resized().model.still(),
{
    reveal(Model::resized);
    let once = m.resized().model;
    let twice = once.resized();
    if !m.config.fill {
        assert forall|output: u64| #[trigger] once.size_on(output) == m.size_on(output) by {
            reveal(Model::size_on);
        }
        assert(twice.model.layer_surfaces =~= once.layer_surfaces);
        lemma_no_size_acts(m, once, once.layer_surfaces.len() as int);
        assert(twice.model =~= once);
    }
}

/// Bars that stretch along their edge are left alone. Of the others, each has
/// the size of its content afterwards, and just those are told a size whose size
/// has changed.
pub proof fn just_changed_bars_are_resized(m: Model)
    ensures
        m.config.fill ==> m.resized() == m.still(),
        !m.config.fill ==> {
            let next = m.resized();
            &&& next.model.layer_surfaces.len() == m.layer_surfaces.len()
            &&& forall|i: int|
                0 <= i < m.layer_surfaces.len() ==> {
                    let (id, s) = #[trigger] m.layer_surfaces[i];
                    let size = m.size_on(s.output);
                    &&& next.model.layer_surfaces[i] == (
                        id,
                        LayerSurface { last_size: size, ..s },
                    )
                    &&& s.last_size != size ==> next.acts.contains(size_act(id, size))
                }
            &&& forall|k: int|
                0 <= k < next.acts.len() ==> resizes(
                    m,
                    m.layer_surfaces.len() as int,
                    #[trigger] next.acts[k],
                )
        },
{
    reveal(Model::resized);
    if !m.config.fill {
        lemma_size_acts(m, m.layer_surfaces.len() as int);
    }
}

/// A bar is told a size.
pub open spec fn size_act(id: u64, size: SurfaceSize) -> Act {
    (Action::SetSize {
        id,
        to: match size {
            Some(wh) => wh,
            None => (None, None),
        },
    }).act()
}

/// The bar at place `i` is told the size of its content, which is another than
/// before.
pub open spec fn is_size_act(m: Model, i: int, act: Act) -> bool {
    let (id, s) = m.layer_surfaces[i];
    s.last_size != m.size_on(s.output) && act == size_act(id, m.size_on(s.output))
}

/// One of the first `n` bars is told the size of its content.
pub open spec fn resizes(m: Model, n: int, act: Act) -> bool {
    exists|i: int| 0 <= i < n && #[trigger] is_size_act(m, i, act)
}

proof fn lemma_size_acts(m: Model, n: int)
    requires
        0 <= n <= m.layer_surfaces.len(),
    ensures
        forall|i: int|
            0 <= i < n ==> {
                let (id, s) = #[trigger] m.layer_surfaces[i];
                let size = m.size_on(s.output);
                s.last_size != size ==> m.size_acts(n).contains(size_act(id, size))
            },
        forall|k: int|
            0 <= k < m.size_acts(n).len() ==> resizes(m, n, #[trigger] m.size_acts(n)[k]),
    decreases n,
{
    if n > 0 {
        lemma_size_acts(m, n - 1);
        let rest = m.size_acts(n - 1);
        let all = m.size_acts(n);
        assert forall|i: int| 0 <= i < n implies {
            let (id, s) = #[trigger] m.layer_surfaces[i];
            let size = m.size_on(s.output);
            s.last_size != size ==> all.contains(size_act(id, size))
        } by {
            let (id, s) = m.layer_surfaces[i];
            let size = m.size_on(s.output);
            if s.last_size != size {
                if i == n - 1 {
                    assert(all.last() == size_act(id, size));
                } else {
                    assert(rest.contains(size_act(id, size)));
                    let k = choose|k: int| 0 <= k < rest.len() && rest[k] == size_act(id, size);
                    assert(all[k] == size_act(id, size));
                }
            }
        }
        assert forall|k: int| 0 <= k < all.len() implies resizes(m, n, #[trigger] all[k]) by {
            if k < rest.len() {
                assert(all[k] == rest[k]);
                assert(resizes(m, n - 1, rest[k]));
                let i = choose|i: int| 0 <= i < n - 1 && #[trigger] is_size_act(m, i, rest[k]);
                assert(is_size_act(m, i, all[k]));
            } else {
                assert(is_size_act(m, n - 1, all[k]));
            }
        }
    }
}

proof fn lemma_no_size_acts(m: Model, once: Model, n: int)
    requires
        !m.config.fill,
        once == m.resized().model,
        forall|output: u64| #[trigger] once.size_on(output) == m.size_on(output),
        n <= once.layer_surfaces.len(),
    ensures
        once.size_acts(n) == model::nothing(),
    decreases n,
{
    reveal(Model::resized);
    if n > 0 {
        lemma_no_size_acts(m, once, n - 1);
        assert(once.layer_surfaces[n - 1].1.last_size == m.size_on(
            m.layer_surfaces[n - 1].1.output,
        ));
    }
}

/// The workspaces on an output are among all workspaces.
proof fn lemma_shown_on(list: Seq<Workspace>, output: u64)
    ensures
        forall|i: int|
            0 <= i < geometry::shown_on(list, output).len() ==> list.contains(
                #[trigger] geometry::shown_on(list, output)[i],
            ) && geometry::shown_on(list, output)[i].on(output),
    decreases list.len(),
{
    if list.len() > 0 {
        let front = list.drop_last();
        lemma_shown_on(front, output);
        let all = geometry::shown_on(list, output);
        let rest = geometry::shown_on(front, output);
        assert forall|i: int| 0 <= i < all.len() implies list.contains(#[trigger] all[i])
            && all[i].on(output) by {
            if i < rest.len() {
                assert(all[i] == rest[i]);
                let k = choose|k: int| 0 <= k < front.len() && front[k] == rest[i];
                assert(list[k] == all[i]);
            } else {
                assert(list[list.len() - 1] == all[i]);
            }
        }
    }
}

proof fn lemma_active_place(list: Seq<Workspace>)
    ensures
        model::active_place(list) matches Some(i) ==> 0 <= i < list.len() && list[i].info.active
            && forall|k: int| 0 <= k < i ==> !(#[trigger] list[k]).info.active,
        model::active_place(list) is None ==> forall|k: int|
            0 <= k < list.len() ==> !(#[trigger] list[k]).info.active,
    decreases list.len(),
{
    if list.len() > 0 && !list[0].info.active {
        let rest = list.skip(1);
        lemma_active_place(rest);
        match model::active_place(rest) {
            Some(i) => {
                assert forall|k: int| 0 <= k < i + 1 implies !(#[trigger] list[k]).info.active by {
                    if k > 0 {
                        assert(rest[k - 1] == list[k]);
                    }
                }
                assert(rest[i] == list[i + 1]);
            },
            None => {
                assert forall|k: int| 0 <= k < list.len() implies !(
                #[trigger] list[k]).info.active by {
                    if k > 0 {
                        assert(rest[k - 1] == list[k]);
                    }
                }
            },
        }
    }
}

/// Scrolling leads to a workspace of the same output, wherever it starts and
/// however far it goes.
pub proof fn scrolling_stays_on_output(m: Model, output: u64, steps: isize)
    ensures
        ({
            let here = geometry::shown_on(m.workspaces, output);
            model::scrolled_to(here, steps) matches Some(handle) ==> exists|i: int|
                0 <= i < m.workspaces.len() && (#[trigger] m.workspaces[i]).info.handle == handle
                    && m.workspaces[i].on(output)
        }),
{
    let here = geometry::shown_on(m.workspaces, output);
    lemma_shown_on(m.workspaces, output);
    lemma_active_place(here);
    match model::active_place(here) {
        Some(i) => {
            let to = (i as isize).wrapping_sub(steps) as int % here.len() as int;
            vstd::arithmetic::div_mod::lemma_mod_bound(
                (i as isize).wrapping_sub(steps) as int,
                here.len() as int,
            );
            assert(m.workspaces.contains(here[to]));
            let k = choose|k: int| 0 <= k < m.workspaces.len() && m.workspaces[k] == here[to];
            assert(m.workspaces[k].on(output));
        },
        None => {},
    }
}

/// One step of scrolling leads to the workspace before the active one, and from
/// the first to the last.
pub proof fn scrolling_goes_round(list: Seq<Workspace>, at: int)
    requires
        model::active_place(list) == Some(at),
        list.len() <= isize::MAX,
    ensures
        model::scrolled_to(list, 1) == Some(
            list[if at == 0 {
                list.len() - 1
            } else {
                at - 1
            }].info.handle,
        ),
        model::scrolled_to(list, -1isize) == Some(
            list[if at == list.len() - 1 {
                0
            } else {
                at + 1
            }].info.handle,
        ),
{
    lemma_active_place(list);
    let n = list.len() as int;
    assert((at as isize).wrapping_sub(1) as int == at - 1);
    if at == 0 {
        vstd::arithmetic::div_mod::lemma_fundamental_div_mod_converse(-1, n, -1, n - 1);
    } else {
        vstd::arithmetic::div_mod::lemma_small_mod((at - 1) as nat, n as nat);
    }
    if at < n - 1 {
        vstd::arithmetic::div_mod::lemma_small_mod((at + 1) as nat, n as nat);
    } else {
        vstd::arithmetic::div_mod::lemma_mod_self_0(n);
        assert((at as isize).wrapping_sub(-1isize) as int % n == 0) by {
            if at + 1 > isize::MAX {
                assert(n == isize::MAX + 1);
            }
        }
    }
}

/// A captured image is what its workspace shows from then on; no other
/// workspace changes.
pub proof fn captures_are_shown(m: Model, i: int, image: Thumbnail)
    requires
        0 <= i < m.workspaces.len(),
        forall|k: int|
            0 <= k < i ==> (#[trigger] m.workspaces[k]).info.handle
                != m.workspaces[i].info.handle,
    ensures
        ({
            let handle = m.workspaces[i].info.handle;
            let next = m.step(Msg::Wayland(BackendEvent::WorkspaceCapture(handle, image))).model;
            &&& next.workspaces.len() == m.workspaces.len()
            &&& next.workspaces[i] == (Workspace { img: Some(image), ..m.workspaces[i] })
            &&& forall|k: int|
                0 <= k < m.workspaces.len() && k != i ==> (#[trigger] next.workspaces[k])
                    == m.workspaces[k]
        }),
{
    lemma_first_place(m.workspaces, i);
}

proof fn lemma_first_place(list: Seq<Workspace>, i: int)
    requires
        0 <= i < list.len(),
        forall|k: int| 0 <= k < i ==> (#[trigger] list[k]).info.handle != list[i].info.handle,
    ensures
        model::workspace_place(list, list[i].info.handle) == Some(i),
    decreases list.len(),
{
    if i > 0 {
        let rest = list.skip(1);
        assert(list[0].info.handle != list[i].info.handle);
        assert(rest[i - 1] == list[i]);
        assert forall|k: int| 0 <= k < i - 1 implies (#[trigger] rest[k]).info.handle
            != rest[i - 1].info.handle by {
            assert(rest[k] == list[k + 1]);
        }
        lemma_first_place(rest, i - 1);
    }
}

/// A click on a workspace switches to it: the backend is told so, and makes the
/// compositor do it.
pub proof fn clicks_switch_workspaces(m: Model, workspace: u64)
    requires
        m.backend,
    ensures
        m.step(Msg::ActivateWorkspace(workspace)).model == m,
        m.step(Msg::ActivateWorkspace(workspace)).acts == model::one(
            Action::Send(Cmd::ActivateWorkspace(workspace)),
        ),
        captures::switch_steps(workspace, true) == seq![
            captures::Step::ActivateWorkspace(workspace),
            captures::Step::Commit,
        ],
{
}

/// A click on the media controls brings the player up, and asks for its window
/// by the id of its app.
pub proof fn clicks_raise_players(m: Model)
    requires
        m.backend,
        m.media is Some,
    ensures
        m.step(Msg::MediaRaise).model == m,
        m.step(Msg::MediaRaise).acts == seq![
            Action::Raise(m.media->0.info.bus_name).act(),
            Action::Send(Cmd::ActivateToplevelByAppId(m.media->0.info.desktop_entry)).act(),
        ],
{
    assert(m.step(Msg::MediaRaise).acts =~= seq![
        Action::Raise(m.media->0.info.bus_name).act(),
        Action::Send(Cmd::ActivateToplevelByAppId(m.media->0.info.desktop_entry)).act(),
    ]);
}

/// What was typed last is what the workspace is renamed to.
#[verifier::spinoff_prover]
#[verifier::rlimit(40)]
pub proof fn typed_name_is_sent(m: Model, value: String)
    requires
        m.rename is Some,
        m.backend,
    ensures
        ({
            let typed = m.step(Msg::RenameInput(value)).model;
            let sent = typed.step(Msg::RenameSubmit);
            &&& sent.acts == seq![
                Action::Send(Cmd::RenameWorkspace(m.rename->0.workspace, value)).act(),
                Action::DestroySurface(m.rename->0.id).act(),
            ]
            &&& sent.model == (Model { rename: None, ..m })
        }),
{
    let dialog = m.rename->0;
    let typed = Model { rename: Some(RenameDialog { value, ..dialog }), ..m };
    assert(m.step(Msg::RenameInput(value)) == typed.still());
    lemma_rename_submitted(typed);
    assert(Model { rename: None, ..typed } == Model { rename: None, ..m });
}

proof fn lemma_rename_submitted(m: Model)
    requires
        m.rename is Some,
        m.backend,
    ensures
        m.step(Msg::RenameSubmit).model == (Model { rename: None, ..m }),
        m.step(Msg::RenameSubmit).acts == seq![
            Action::Send(Cmd::RenameWorkspace(m.rename->0.workspace, m.rename->0.value)).act(),
            Action::DestroySurface(m.rename->0.id).act(),
        ],
{
    let dialog = m.rename->0;
    assert(m.step(Msg::RenameSubmit).acts =~= seq![
        Action::Send(Cmd::RenameWorkspace(dialog.workspace, dialog.value)).act(),
        Action::DestroySurface(dialog.id).act(),
    ]);
}

/// A menu about a workspace is not replaced by the bar's own menu that the same
/// press asks for.
#[verifier::spinoff_prover]
#[verifier::rlimit(40)]
pub proof fn item_menus_stay(m: Model, bar: u64, workspace: (u64, String))
    requires
        strips::lookup(m.layer_surfaces, bar) is Some,
    ensures
        ({
            let opened = m.step(Msg::OpenContextMenu(bar, Some(workspace))).model;
            &&& opened.context_menu == Some(
                ContextMenu { id: m.next_id, workspace: Some(workspace) },
            )
            &&& opened.step(Msg::OpenContextMenu(bar, None)) == opened.still()
        }),
{
}

/// A menu that is opened takes the place of the one before.
#[verifier::spinoff_prover]
#[verifier::rlimit(40)]
pub proof fn menus_replace_each_other(m: Model, bar: u64, workspace: (u64, String))
    requires
        strips::lookup(m.layer_surfaces, bar) is Some,
        m.context_menu is Some,
    ensures
        m.step(Msg::OpenContextMenu(bar, Some(workspace))).acts[0] == Action::DestroyPopup(
            m.context_menu->0.id,
        ).act(),
{
}

/// A listed workspace is among those that are shown.
pub open spec fn is_shown(shown: Seq<Workspace>, listed: Listed) -> bool {
    exists|i: int|
        0 <= i < shown.len() && (#[trigger] shown[i]).info == listed.info && shown[i].outputs
            == listed.outputs
}

/// A workspace that is listed again keeps its preview, wherever it comes to
/// stand; and every listed workspace is shown, those of lower coordinates first.
pub proof fn previews_survive(old: Seq<Workspace>, list: Seq<Listed>)
    ensures
        ({
            let shown = model::relisted(old, list);
            &&& shown.len() == list.len()
            &&& forall|i: int|
                0 <= i < shown.len() ==> (#[trigger] shown[i]).img == model::preview_of(
                    old,
                    shown[i].info.handle,
                )
            &&& forall|i: int, j: int|
                0 <= i < j < shown.len() ==> !model::lex_below(
                    (#[trigger] shown[j]).info.coordinates@,
                    (#[trigger] shown[i]).info.coordinates@,
                )
            &&& forall|k: int| 0 <= k < list.len() ==> is_shown(shown, #[trigger] list[k])
        }),
{
    sort::every_list_sorts(list);
    let sorted = model::by_coordinates(list);
    let shown = model::relisted(old, list);
    let order = choose|order: Seq<int>| #[trigger] sort::sorts_by(list, sorted, order);
    assert(sort::stably_sorted(list, sorted));
    assert(shown.len() == list.len());
    assert forall|i: int| 0 <= i < shown.len() implies (#[trigger] shown[i]).img
        == model::preview_of(old, shown[i].info.handle) by {
        assert(shown[i].info == sorted[i].info);
    }
    assert forall|i: int, j: int| 0 <= i < j < shown.len() implies !model::lex_below(
        (#[trigger] shown[j]).info.coordinates@,
        (#[trigger] shown[i]).info.coordinates@,
    ) by {
        assert(!sorted[j].under(sorted[i]));
    }
    assert forall|k: int| 0 <= k < list.len() implies is_shown(shown, #[trigger] list[k]) by {
        sort::lemma_order_covers(order, list.len(), k);
        let i = choose|i: int| 0 <= i < list.len() && #[trigger] order[i] == k;
        assert(sorted[i] == list[k]);
        assert(shown[i].info == list[k].info);
    }
}

proof fn lemma_still_reserved(list: Seq<Reserved>, gone: Gone)
    ensures
        forall|i: int|
            0 <= i < model::still_reserved(list, gone).len() ==> !gone.takes(
                #[trigger] model::still_reserved(list, gone)[i],
            ),
    decreases list.len(),
{
    if list.len() > 0 {
        lemma_still_reserved(list.drop_last(), gone);
        let all = model::still_reserved(list, gone);
        let rest = model::still_reserved(list.drop_last(), gone);
        assert forall|i: int| 0 <= i < all.len() implies !gone.takes(#[trigger] all[i]) by {
            if i < rest.len() {
                assert(all[i] == rest[i]);
            }
        }
    }
}

/// An output that is gone, or a probe that is gone, reserves nothing.
pub proof fn nothing_stays_reserved(m: Model, output: u64, probe: u64)
    requires
        strips::lookup(m.probe_surfaces, probe) is Some,
    ensures
        forall|i: int|
            0 <= i < m.output_removed(output).model.reserved.len() ==> (
            #[trigger] m.output_removed(output).model.reserved[i]).output != output,
        forall|i: int|
            0 <= i < m.on_layer_done(probe).model.reserved.len() ==> (
            #[trigger] m.on_layer_done(probe).model.reserved[i]).probe != probe,
{
    lemma_still_reserved(m.reserved, Gone::Output(output));
    lemma_still_reserved(m.reserved, Gone::Probe(probe));
}

/// A report of a reserved strip replaces the one before under the same name.
pub proof fn latest_report_counts(m: Model, id: u64, added: Reserved)
    requires
        strips::lookup(m.probe_surfaces, id) == Some(added.output),
        added.probe == id,
    ensures
        ({
            let event = model::OverlapEvent::LayerAdd {
                identifier: added.identifier,
                namespace: added.namespace,
                exclusive: added.exclusive,
                rect: added.rect,
            };
            let after = m.on_overlap(event, id).model.reserved;
            &&& after.len() > 0
            &&& after.last() == added
            &&& forall|i: int|
                0 <= i < after.len() - 1 ==> !((#[trigger] after[i]).probe == id
                    && after[i].identifier@ == added.identifier@)
        }),
{
    reveal(Model::resized);
    lemma_still_reserved(m.reserved, Gone::Entry(id, added.identifier));
}

proof fn lemma_place_pushed(outputs: Seq<Output>, added: Output)
    requires
        model::output_place(outputs, added.handle) is None,
    ensures
        model::output_place(outputs.push(added), added.handle) == Some(outputs.len() as int),
    decreases outputs.len(),
{
    let more = outputs.push(added);
    if outputs.len() > 0 {
        lemma_place_pushed(outputs.skip(1), added);
        assert(more.skip(1) =~= outputs.skip(1).push(added));
    }
}

proof fn lemma_surface_pushed(
    table: Seq<(u64, LayerSurface)>,
    added: (u64, LayerSurface),
)
    requires
        model::surface_on(table, added.1.output) is None,
    ensures
        model::surface_on(table.push(added), added.1.output) == Some(added.0),
    decreases table.len(),
{
    let more = table.push(added);
    if table.len() > 0 {
        lemma_surface_pushed(table.skip(1), added);
        assert(more.skip(1) =~= table.skip(1).push(added));
    }
}

proof fn lemma_probe_pushed(table: Seq<(u64, u64)>, added: (u64, u64))
    requires
        model::probe_on(table, added.1) is None,
    ensures
        model::probe_on(table.push(added), added.1) == Some(added.0),
    decreases table.len(),
{
    let more = table.push(added);
    if table.len() > 0 {
        lemma_probe_pushed(table.skip(1), added);
        assert(more.skip(1) =~= table.skip(1).push(added));
    }
}

proof fn lemma_without_new<V>(table: Seq<(u64, V)>, key: u64, value: V)
    requires
        tables::below(table, key),
    ensures
        model::without(table.push((key, value)), key) == table,
{
    lemma_without_none(table, key);
    assert(table.push((key, value)).drop_last() =~= table);
}

proof fn lemma_without_none<V>(table: Seq<(u64, V)>, key: u64)
    requires
        tables::below(table, key),
    ensures
        model::without(table, key) == table,
    decreases table.len(),
{
    if table.len() > 0 {
        let front = table.drop_last();
        assert forall|i: int| 0 <= i < front.len() implies (#[trigger] front[i]).0 < key by {
            assert(table[i].0 < key);
        }
        lemma_without_none(front, key);
        assert(table[table.len() - 1].0 < key);
        assert(front.push(table.last()) =~= table);
    }
}

proof fn lemma_all_reserved(list: Seq<Reserved>, gone: Gone)
    requires
        forall|i: int| 0 <= i < list.len() ==> !gone.takes(#[trigger] list[i]),
    ensures
        model::still_reserved(list, gone) == list,
    decreases list.len(),
{
    if list.len() > 0 {
        let front = list.drop_last();
        assert forall|i: int| 0 <= i < front.len() implies !gone.takes(#[trigger] front[i]) by {
            assert(front[i] == list[i]);
        }
        lemma_all_reserved(front, gone);
        assert(!gone.takes(list[list.len() - 1]));
        assert(front.push(list.last()) =~= list);
    }
}

/// An output that comes and goes leaves no trace: its bar, its probe and its
/// entry are gone again.
pub proof fn outputs_leave_no_trace(m: Model, output: u64, name: String, size: (i32, i32))
    requires
        m.valid(),
        m.has_room(),
        model::output_place(m.outputs, output) is None,
        model::surface_on(m.layer_surfaces, output) is None,
        model::probe_on(m.probe_surfaces, output) is None,
        forall|i: int| 0 <= i < m.reserved.len() ==> (#[trigger] m.reserved[i]).output != output,
    ensures
        ({
            let came = m.output_created(output, name, size).model;
            let gone = came.output_removed(output).model;
            gone == (Model { next_id: gone.next_id, ..m })
        }),
{
    let came = m.output_created(output, name, size).model;
    let gone = came.output_removed(output).model;
    let added = Output { handle: output, name, width: size.0, height: size.1 };
    identity::lemma_below(m);
    lemma_place_pushed(m.outputs, added);
    assert(m.outputs.push(added).remove(m.outputs.len() as int) =~= m.outputs);
    let bar = came.layer_surfaces.last();
    assert(came.layer_surfaces =~= m.layer_surfaces.push(bar));
    lemma_surface_pushed(m.layer_surfaces, bar);
    lemma_without_new(m.layer_surfaces, m.next_id, bar.1);
    let probe = ((m.next_id + 1) as u64, output);
    assert(came.probe_surfaces =~= m.probe_surfaces.push(probe));
    lemma_probe_pushed(m.probe_surfaces, probe);
    assert(tables::below(m.probe_surfaces, probe.0));
    lemma_without_new(m.probe_surfaces, probe.0, output);
    lemma_all_reserved(m.reserved, Gone::Output(output));
    assert(gone =~= (Model { next_id: gone.next_id, ..m }));
}

} // verus!
