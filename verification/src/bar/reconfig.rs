//! What a changed configuration brings about, entry by entry.

use crate::bar::actions::{Act, Action};
use crate::bar::effects;
use crate::bar::model;
use crate::bar::model::{Model, Msg};
use crate::config;
use crate::config::Config;
use vstd::prelude::*;

verus! {

/// The bar takes the same place as before.
pub open spec fn same_place(a: Config, b: Config) -> bool {
    a.size == b.size && a.edge == b.edge && a.fill == b.fill
}

/// A bar is to hide after a second without the pointer.
pub open spec fn hides_later(act: Act, id: u64) -> bool {
    match act {
        Act::Plain(Action::HideAfter { id: bar, generation: _, wait }) => bar == id && wait == 1000,
        _ => false,
    }
}

/// One of the actions is to hide a bar after a while.
pub open spec fn hidden_later(acts: Seq<Act>, id: u64) -> bool {
    exists|k: int| 0 <= k < acts.len() && hides_later(#[trigger] acts[k], id)
}

/// A new bar hides after a second if bars hide, told by the timer that it waits for;
/// and else no timer is started.
pub proof fn new_bars_hide_after_a_while(m: Model, output: u64, k: int)
    ensures
        ({
            let made = m.created(output);
            let (id, s) = made.model.layer_surfaces.last();
            &&& m.config.autohide ==> made.acts.contains(
                Act::Plain(
                    Action::HideAfter { id, generation: s.hide_generation, wait: 1000 },
                ),
            )
            &&& !m.config.autohide && 0 <= k < made.acts.len() ==> !hides_later(made.acts[k], id)
            &&& made.acts.contains(
                Act::Plain(
                    Action::SetBlur {
                        id,
                        enabled: config::blur_wanted(
                            m.config.blur,
                            m.frosted_panel,
                            m.panel_theme.opacity,
                        ),
                    },
                ),
            )
        }),
{
    let made = m.created(output);
    let (id, s) = made.model.layer_surfaces.last();
    if m.config.autohide {
        assert(made.acts[2] == Act::Plain(
            Action::HideAfter { id, generation: s.hide_generation, wait: 1000 },
        ));
    }
    assert(made.acts[1] == m.blur(id));
}

proof fn lemma_timers(m: Model, n: int)
    requires
        0 <= n <= m.layer_surfaces.len(),
        m.config.autohide,
    ensures
        forall|i: int|
            0 <= i < n ==> hidden_later(
                m.autohide_on(n).acts,
                (#[trigger] m.layer_surfaces[i]).0,
            ),
    decreases n,
{
    if n > 0 {
        lemma_timers(m, n - 1);
        effects::lemma_autohide_on(m, n - 1);
        let rest = m.autohide_on(n - 1);
        let id = m.layer_surfaces[n - 1].0;
        let done = m.autohide_on(n);
        assert(rest.model.layer_surfaces[n - 1].0 == id);
        effects::lemma_known(rest.model.layer_surfaces, n - 1);
        let next = rest.model.scheduled(id);
        let zone = model::one(Action::SetZone { id, zone: m.zone() });
        assert(done.acts == rest.acts + zone + next.acts);
        assert forall|i: int| 0 <= i < n implies hidden_later(
            done.acts,
            (#[trigger] m.layer_surfaces[i]).0,
        ) by {
            let bar = m.layer_surfaces[i].0;
            if i < n - 1 {
                assert(hidden_later(rest.acts, bar));
                let k = choose|k: int|
                    0 <= k < rest.acts.len() && hides_later(#[trigger] rest.acts[k], bar);
                assert(done.acts[k] == rest.acts[k]);
            } else {
                let at = rest.acts.len() as int + 1;
                assert(done.acts[at] == next.acts[0]);
                assert(hides_later(done.acts[at], bar));
            }
        }
    }
}

/// What is done for a changed look: blur first, then hiding, then sizes.
proof fn lemma_parts(m: Model, c: Config)
    requires
        same_place(c, m.config),
        !c.same(m.config),
    ensures
        ({
            let next = Model { config: c, ..m };
            let old = m.config;
            let all = m.layer_surfaces.len() as int;
            let blurred = if c.blur != old.blur {
                next.blur_all()
            } else {
                model::nothing()
            };
            let hiding = if c.autohide != old.autohide {
                next.autohide_on(all)
            } else {
                next.still()
            };
            let sized = hiding.model.resized();
            let out = m.step(Msg::Config(c));
            let changed = c.autohide != old.autohide || c.clip != old.clip;
            let last = if changed {
                hiding.model.report() + sized.acts
            } else {
                model::nothing()
            };
            &&& out.acts == next.followed(old) + (blurred + hiding.acts + last)
            &&& out.model == if changed {
                sized.model
            } else {
                hiding.model
            }
        }),
{
    reveal(Model::restyled);
}

/// Switching blur reaches every bar that is there.
#[verifier::rlimit(30)]
pub proof fn blur_reaches_every_bar(m: Model, c: Config, i: int)
    requires
        same_place(c, m.config),
        c.blur != m.config.blur,
        0 <= i < m.layer_surfaces.len(),
    ensures
        m.step(Msg::Config(c)).acts.contains(
            Act::Plain(
                Action::SetBlur {
                    id: m.layer_surfaces[i].0,
                    enabled: config::blur_wanted(
                        c.blur,
                        m.frosted_panel,
                        m.panel_theme.opacity,
                    ),
                },
            ),
        ),
{
    config::equal_configurations_agree(c, m.config);
    lemma_parts(m, c);
    let next = Model { config: c, ..m };
    let out = m.step(Msg::Config(c));
    let at = next.followed(m.config).len() as int + i;
    assert(out.acts[at] == next.blur_all()[i]);
}

/// Switching hiding on starts the timer of every bar.
#[verifier::rlimit(30)]
pub proof fn hiding_starts_every_timer(m: Model, c: Config, i: int)
    requires
        same_place(c, m.config),
        c.autohide,
        !m.config.autohide,
        0 <= i < m.layer_surfaces.len(),
    ensures
        hidden_later(m.step(Msg::Config(c)).acts, m.layer_surfaces[i].0),
{
    config::equal_configurations_agree(c, m.config);
    lemma_parts(m, c);
    let next = Model { config: c, ..m };
    let out = m.step(Msg::Config(c));
    let all = m.layer_surfaces.len() as int;
    lemma_timers(next, all);
    let blurred = if c.blur != m.config.blur {
        next.blur_all()
    } else {
        model::nothing()
    };
    let acts = next.autohide_on(all).acts;
    let id = next.layer_surfaces[i].0;
    assert(hidden_later(acts, id));
    let k = choose|k: int| 0 <= k < acts.len() && hides_later(#[trigger] acts[k], id);
    let at = next.followed(m.config).len() + blurred.len() + k;
    assert(out.acts[at] == acts[k]);
}

/// Another choice of what is cropped is told to the backend, and bars that are as
/// long as their content take their new size.
#[verifier::rlimit(30)]
pub proof fn crops_are_told_and_resize_bars(m: Model, c: Config, i: int)
    requires
        same_place(c, m.config),
        c.clip != m.config.clip,
        c.autohide == m.config.autohide,
        0 <= i < m.layer_surfaces.len(),
    ensures
        ({
            let out = m.step(Msg::Config(c));
            &&& out.model.config.clip == c.clip
            &&& m.backend ==> out.acts.contains(Act::Report(out.model.filter()))
            &&& !c.fill ==> out.model.layer_surfaces[i].1.last_size == out.model.size_on(
                m.layer_surfaces[i].1.output,
            )
        }),
{
    config::equal_configurations_agree(c, m.config);
    lemma_parts(m, c);
    let next = Model { config: c, ..m };
    let out = m.step(Msg::Config(c));
    effects::lemma_resized_bars(next);
    assert(out.model == next.resized().model);
    assert(out.model.filter() == next.filter()) by {
        reveal(Model::filter);
        assert(out.model.all_hidden() == next.all_hidden()) by {
            if next.all_hidden() {
                assert forall|k: int| 0 <= k < out.model.layer_surfaces.len() implies (
                #[trigger] out.model.layer_surfaces[k]).1.hidden by {
                    assert(next.layer_surfaces[k].1.hidden);
                }
            }
            if out.model.all_hidden() {
                assert forall|k: int| 0 <= k < next.layer_surfaces.len() implies (
                #[trigger] next.layer_surfaces[k]).1.hidden by {
                    assert(out.model.layer_surfaces[k].1.hidden);
                }
            }
        }
    }
    if m.backend {
        let blurred = if c.blur != m.config.blur {
            next.blur_all()
        } else {
            model::nothing()
        };
        let at = (next.followed(m.config).len() + blurred.len()) as int;
        assert(out.acts[at] == Act::Report(next.filter()));
    }
    if !c.fill {
        reveal(Model::resized);
        assert forall|o: u64| #[trigger] out.model.size_on(o) == next.size_on(o) by {
            reveal(Model::size_on);
        }
    }
}

/// The same configuration again does nothing.
#[verifier::rlimit(30)]
pub proof fn equal_configurations_do_nothing(m: Model, c: Config)
    requires
        c.same(m.config),
    ensures
        m.step(Msg::Config(c)).model == m,
        m.step(Msg::Config(c)).acts.len() == 0,
{
}

} // verus!
