//! Look-up and change of the bar's tables.

use crate::backend::strips;
use crate::bar::geometry;
use crate::bar::geometry::{Output, Reserved, Thumbnail, Workspace};
use crate::bar::model;
use crate::bar::model::{Gone, LayerSurface, Listed};
use crate::config::SurfaceSize;
use crate::sort;
use crate::sort::stable_sort;
use crate::text::same_text;
use vstd::prelude::*;

verus! {

/// No key occurs twice.
pub open spec fn distinct<V>(table: Seq<(u64, V)>) -> bool {
    forall|i: int, j: int| 0 <= i < j < table.len() ==> (#[trigger] table[i]).0 != (
    #[trigger] table[j]).0
}

/// Every key is below `limit`.
pub open spec fn below<V>(table: Seq<(u64, V)>, limit: u64) -> bool {
    forall|i: int| 0 <= i < table.len() ==> (#[trigger] table[i]).0 < limit
}

/// A table that gets an entry for a new key keeps its keys apart.
pub proof fn lemma_pushed<V>(table: Seq<(u64, V)>, key: u64, value: V)
    requires
        distinct(table),
        below(table, key),
        key < u64::MAX,
    ensures
        distinct(table.push((key, value))),
        below(table.push((key, value)), (key + 1) as u64),
{
    let more = table.push((key, value));
    assert forall|i: int, j: int| 0 <= i < j < more.len() implies (#[trigger] more[i]).0 != (
    #[trigger] more[j]).0 by {
        assert(more[i] == table[i]);
        if j < table.len() {
            assert(more[j] == table[j]);
        }
    }
    assert forall|i: int| 0 <= i < more.len() implies (#[trigger] more[i]).0 < key + 1 by {
        if i < table.len() {
            assert(more[i] == table[i]);
        }
    }
}

/// What is left of a table comes from it.
pub proof fn lemma_without_from<V>(table: Seq<(u64, V)>, key: u64)
    ensures
        forall|i: int|
            0 <= i < model::without(table, key).len() ==> (#[trigger] model::without(
                table,
                key,
            )[i]).0 != key && table.contains(model::without(table, key)[i]),
    decreases table.len(),
{
    if table.len() > 0 {
        lemma_without_from(table.drop_last(), key);
        let rest = model::without(table.drop_last(), key);
        let all = model::without(table, key);
        assert forall|i: int| 0 <= i < all.len() implies (#[trigger] all[i]).0 != key
            && table.contains(all[i]) by {
            if i < rest.len() {
                assert(all[i] == rest[i]);
                let k = choose|k: int|
                    0 <= k < table.drop_last().len() && table.drop_last()[k] == rest[i];
                assert(table[k] == all[i]);
            } else {
                assert(table[table.len() - 1] == all[i]);
            }
        }
    }
}

pub proof fn lemma_without<V>(table: Seq<(u64, V)>, key: u64, limit: u64)
    requires
        distinct(table),
        below(table, limit),
    ensures
        distinct(model::without(table, key)),
        below(model::without(table, key), limit),
    decreases table.len(),
{
    if table.len() > 0 {
        let front = table.drop_last();
        assert forall|i: int, j: int| 0 <= i < j < front.len() implies (#[trigger] front[i]).0 != (
        #[trigger] front[j]).0 by {
            assert(table[i].0 != table[j].0);
        }
        assert forall|i: int| 0 <= i < front.len() implies (#[trigger] front[i]).0 < limit by {
            assert(table[i].0 < limit);
        }
        lemma_without(front, key, limit);
        lemma_without_from(front, key);
        let rest = model::without(front, key);
        let all = model::without(table, key);
        if table.last().0 != key {
            assert forall|i: int, j: int| 0 <= i < j < all.len() implies (#[trigger] all[i]).0 != (
            #[trigger] all[j]).0 by {
                assert(all[i] == rest[i]);
                if j < rest.len() {
                    assert(all[j] == rest[j]);
                } else {
                    let k = choose|k: int| 0 <= k < front.len() && front[k] == rest[i];
                    assert(table[k].0 != table[table.len() - 1].0);
                }
            }
            assert forall|i: int| 0 <= i < all.len() implies (#[trigger] all[i]).0 < limit by {
                if i < rest.len() {
                    assert(all[i] == rest[i]);
                } else {
                    assert(table[table.len() - 1].0 < limit);
                }
            }
        }
    }
}

/// The first entry for a key.
pub fn find<V: Copy>(table: &Vec<(u64, V)>, key: u64) -> (res: Option<V>)
    ensures
        res == strips::lookup(table@, key),
{
    let mut i: usize = 0;
    assert(table@.skip(0) =~= table@);
    while i < table.len()
        invariant
            i <= table.len(),
            strips::lookup(table@, key) == strips::lookup(table@.skip(i as int), key),
        decreases table.len() - i,
    {
        if table[i].0 == key {
            return Some(table[i].1);
        }
        assert(table@.skip(i as int).skip(1) =~= table@.skip(i + 1));
        i = i + 1;
    }
    None
}

/// Put another value in place of those for a key.
pub fn replace<V: Copy>(table: &mut Vec<(u64, V)>, key: u64, value: V)
    ensures
        final(table)@ == model::replaced(old(table)@, key, value),
{
    let ghost all = table@;
    let mut i: usize = 0;
    while i < table.len()
        invariant
            i <= table@.len(),
            table@.len() == all.len(),
            forall|k: int|
                0 <= k < i ==> #[trigger] table@[k] == model::replaced(all, key, value)[k],
            forall|k: int| i <= k < all.len() ==> #[trigger] table@[k] == all[k],
        decreases table@.len() - i,
    {
        if table[i].0 == key {
            table.set(i, (key, value));
        }
        i = i + 1;
    }
    assert(table@ =~= model::replaced(all, key, value));
}

/// Take out the entries for a key.
pub fn take_out<V: Copy>(table: &mut Vec<(u64, V)>, key: u64)
    ensures
        final(table)@ == model::without(old(table)@, key),
{
    let ghost all = table@;
    let mut left: Vec<(u64, V)> = Vec::new();
    let mut i: usize = 0;
    assert(all.take(0) =~= Seq::empty());
    while i < table.len()
        invariant
            i <= table@.len(),
            table@ == all,
            left@ == model::without(all.take(i as int), key),
        decreases table@.len() - i,
    {
        assert(all.take(i + 1).drop_last() =~= all.take(i as int));
        if table[i].0 != key {
            left.push(table[i]);
        }
        i = i + 1;
    }
    assert(all.take(all.len() as int) =~= all);
    *table = left;
}

/// The first surface that belongs to an output.
pub fn find_surface_on(table: &Vec<(u64, LayerSurface)>, output: u64) -> (res: Option<u64>)
    ensures
        res == model::surface_on(table@, output),
{
    let mut i: usize = 0;
    assert(table@.skip(0) =~= table@);
    while i < table.len()
        invariant
            i <= table.len(),
            model::surface_on(table@, output) == model::surface_on(table@.skip(i as int), output),
        decreases table.len() - i,
    {
        if table[i].1.output == output {
            return Some(table[i].0);
        }
        assert(table@.skip(i as int).skip(1) =~= table@.skip(i + 1));
        i = i + 1;
    }
    None
}

/// The first probe that belongs to an output.
pub fn find_probe_on(table: &Vec<(u64, u64)>, output: u64) -> (res: Option<u64>)
    ensures
        res == model::probe_on(table@, output),
{
    let mut i: usize = 0;
    assert(table@.skip(0) =~= table@);
    while i < table.len()
        invariant
            i <= table.len(),
            model::probe_on(table@, output) == model::probe_on(table@.skip(i as int), output),
        decreases table.len() - i,
    {
        if table[i].1 == output {
            return Some(table[i].0);
        }
        assert(table@.skip(i as int).skip(1) =~= table@.skip(i + 1));
        i = i + 1;
    }
    None
}

impl Gone {
    fn hits(&self, r: &Reserved) -> (res: bool)
        ensures
            res == self.takes(*r),
    {
        match self {
            Gone::Output(o) => r.output == *o,
            Gone::Probe(p) => r.probe == *p,
            Gone::Entry(p, name) => r.probe == *p && same_text(&r.identifier, name),
        }
    }
}

/// Take out the reserved strips that are no longer there.
pub fn drop_reserved(list: &mut Vec<Reserved>, gone: &Gone)
    ensures
        final(list)@ == model::still_reserved(old(list)@, *gone),
{
    let ghost all = list@;
    let ghost mut done: int = 0;
    let mut i: usize = 0;
    assert(all.take(0) =~= Seq::empty());
    assert(all.skip(0) =~= all);
    while i < list.len()
        invariant
            0 <= done <= all.len(),
            i == model::still_reserved(all.take(done), *gone).len(),
            list@ =~= model::still_reserved(all.take(done), *gone) + all.skip(done),
        decreases all.len() - done,
    {
        let ghost head = model::still_reserved(all.take(done), *gone);
        assert(done < all.len());
        assert(list@[i as int] == all[done]);
        assert(all.take(done + 1).drop_last() =~= all.take(done));
        assert(all.take(done + 1).last() == all[done]);
        if gone.hits(&list[i]) {
            let _ = list.remove(i);
            assert(list@ =~= head + all.skip(done + 1));
        } else {
            i = i + 1;
            assert(head.push(all[done]) + all.skip(done + 1) =~= head + all.skip(done));
        }
        proof {
            done = done + 1;
        }
    }
    assert(all.skip(done).len() == 0);
    assert(all.take(done) =~= all);
}

/// The place of the first output with this handle.
pub fn place_of_output(outputs: &Vec<Output>, handle: u64) -> (at: Option<usize>)
    ensures
        match at {
            Some(i) => model::output_place(outputs@, handle) == Some(i as int) && i
                < outputs@.len(),
            None => model::output_place(outputs@, handle) is None,
        },
{
    let mut i: usize = 0;
    assert(outputs@.skip(0) =~= outputs@);
    while i < outputs.len()
        invariant
            i <= outputs.len(),
            model::output_place(outputs@, handle) == (match model::output_place(
                outputs@.skip(i as int),
                handle,
            ) {
                Some(k) => Some(k + i),
                None => None,
            }),
        decreases outputs.len() - i,
    {
        if outputs[i].handle == handle {
            return Some(i);
        }
        assert(outputs@.skip(i as int).skip(1) =~= outputs@.skip(i + 1));
        i = i + 1;
    }
    None
}

/// The place of the first workspace with this handle.
pub fn place_of_workspace(list: &Vec<Workspace>, handle: u64) -> (at: Option<usize>)
    ensures
        match at {
            Some(i) => model::workspace_place(list@, handle) == Some(i as int) && i < list@.len(),
            None => model::workspace_place(list@, handle) is None,
        },
{
    let mut i: usize = 0;
    assert(list@.skip(0) =~= list@);
    while i < list.len()
        invariant
            i <= list.len(),
            model::workspace_place(list@, handle) == (match model::workspace_place(
                list@.skip(i as int),
                handle,
            ) {
                Some(k) => Some(k + i),
                None => None,
            }),
        decreases list.len() - i,
    {
        if list[i].info.handle == handle {
            return Some(i);
        }
        assert(list@.skip(i as int).skip(1) =~= list@.skip(i + 1));
        i = i + 1;
    }
    None
}

/// The workspaces that are shown from now on.
pub fn relist(old: &Vec<Workspace>, list: Vec<Listed>) -> (res: Vec<Workspace>)
    ensures
        res@ == model::relisted(old@, list@),
{
    let ghost given = list@;
    let mut rest: Vec<Listed> = stable_sort(list);
    let ghost sorted = rest@;
    proof {
        sort::stable_order_is_unique(given, sorted, model::by_coordinates(given));
    }
    let ghost goal = model::relisted(old@, given);
    let mut res: Vec<Workspace> = Vec::new();
    let ghost mut done: int = 0;
    assert(sorted.skip(0) =~= sorted);
    while rest.len() > 0
        invariant
            0 <= done <= sorted.len(),
            sorted == model::by_coordinates(given),
            goal == model::relisted(old@, given),
            rest@ == sorted.skip(done),
            res@ =~= goal.take(done),
        decreases rest.len(),
    {
        let next: Listed = rest.remove(0);
        assert(next == sorted[done]);
        assert(rest@ =~= sorted.skip(done + 1));
        let img: Option<Thumbnail> = match place_of_workspace(old, next.info.handle) {
            Some(k) => old[k].img,
            None => None,
        };
        res.push(Workspace { info: next.info, img, outputs: next.outputs });
        assert(res@ =~= goal.take(done + 1));
        proof {
            done = done + 1;
        }
    }
    assert(goal.take(done) =~= goal);
    res
}

/// The same size, or both unknown.
pub fn same_size(a: &SurfaceSize, b: &SurfaceSize) -> (res: bool)
    ensures
        res == (*a == *b),
{
    match (a, b) {
        (Some((w, h)), Some((x, y))) => *w == *x && *h == *y,
        (None, None) => true,
        _ => false,
    }
}

/// `a` brought into `0 .. n`, going round.
fn round_about(a: isize, n: usize) -> (r: usize)
    requires
        n > 0,
    ensures
        r == a as int % n as int,
        r < n,
{
    if a >= 0 {
        (a as usize) % n
    } else {
        let b: usize = (-(a + 1)) as usize;
        let m: usize = b % n;
        proof {
            let q: int = b as int / n as int;
            assert(b as int == n as int * q + m as int) by (nonlinear_arith)
                requires
                    q == b as int / n as int,
                    m as int == b as int % n as int,
                    n > 0,
            ;
            let r: int = n as int - 1 - m as int;
            assert(a as int == (-q - 1) * n as int + r) by (nonlinear_arith)
                requires
                    a as int == -(b as int) - 1,
                    b as int == n as int * q + m as int,
                    r == n as int - 1 - m as int,
            ;
            vstd::arithmetic::div_mod::lemma_fundamental_div_mod_converse(
                a as int,
                n as int,
                -q - 1,
                r,
            );
        }
        n - 1 - m
    }
}

/// The workspace that scrolling over the bar of an output leads to.
pub fn scroll_target(workspaces: &Vec<Workspace>, output: u64, steps: isize) -> (res: Option<u64>)
    ensures
        res == model::scrolled_to(geometry::shown_on(workspaces@, output), steps),
{
    let ghost here = geometry::shown_on(workspaces@, output);
    let mut places: Vec<usize> = Vec::new();
    let mut i: usize = 0;
    assert(workspaces@.take(0) =~= Seq::empty());
    while i < workspaces.len()
        invariant
            i <= workspaces.len(),
            places@.len() == geometry::shown_on(workspaces@.take(i as int), output).len(),
            forall|k: int|
                0 <= k < places@.len() ==> #[trigger] places@[k] < workspaces@.len()
                    && workspaces@[places@[k] as int] == geometry::shown_on(
                    workspaces@.take(i as int),
                    output,
                )[k],
        decreases workspaces.len() - i,
    {
        assert(workspaces@.take(i + 1).drop_last() =~= workspaces@.take(i as int));
        if strips::has_number(&workspaces[i].outputs, output) {
            places.push(i);
        }
        i = i + 1;
    }
    assert(workspaces@.take(workspaces@.len() as int) =~= workspaces@);
    if steps == 0 {
        return None;
    }
    let mut k: usize = 0;
    assert(here.skip(0) =~= here);
    while k < places.len()
        invariant
            k <= places@.len(),
            steps != 0,
            here == geometry::shown_on(workspaces@, output),
            places@.len() == here.len(),
            forall|j: int|
                0 <= j < places@.len() ==> #[trigger] places@[j] < workspaces@.len()
                    && workspaces@[places@[j] as int] == here[j],
            model::active_place(here) == (match model::active_place(here.skip(k as int)) {
                Some(j) => Some(j + k),
                None => None,
            }),
        decreases places@.len() - k,
    {
        assert(places@[k as int] < workspaces@.len());
        if workspaces[places[k]].info.active {
            assert(here.skip(k as int)[0] == here[k as int]);
            assert(model::active_place(here) == Some(k as int));
            let at: usize = round_about((k as isize).wrapping_sub(steps), places.len());
            assert(places@[at as int] < workspaces@.len());
            return Some(workspaces[places[at]].info.handle);
        }
        assert(here.skip(k as int).skip(1) =~= here.skip(k + 1));
        k = k + 1;
    }
    None
}

} // verus!
