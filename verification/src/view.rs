//! Geometry of the bar and the text that it shows.

use crate::config::Edge;
use crate::float::bounds::{
    one_is_neutral, whole_differences_are_exact, whole_parts_are_exact, whole_products_are_exact,
    whole_rounding, zero_times,
};
use crate::float::exact::{exact_limit, whole_numbers_are_exact};
use crate::float::exact::{whole_maximum, whole_negation, whole_sums_are_exact, whole_truncation};
use crate::float::single::F32;
use crate::float::whole::{lemma_round_own_value, one};
use vstd::prelude::*;

verus! {

pub const BAR_PADDING: u64 = 8;

pub const ITEM_SPACING: u64 = 8;

pub const ITEM_PADDING: u64 = 4;

pub const ITEM_INNER_SPACING: u64 = 4;

pub const CAPTION_HEIGHT: u64 = 20;

/// Height of the row of media buttons.
pub const MEDIA_BUTTONS_HEIGHT: u64 = 28;

/// Least thickness of a preview.
pub const MIN_PREVIEW: u64 = 32;

/// Padding on both sides across the bar.
pub open spec fn padding_across() -> int {
    2 * (BAR_PADDING + ITEM_PADDING)
}

/// What is left of the bar's thickness for previews: the padding is taken off
/// and, on a horizontal bar, the caption below the preview.
pub open spec fn thickness(size: u32, edge: Edge) -> F32 {
    let inner = F32::of_int(size as int).sum(F32::of_int(padding_across()).negated());
    let room = if edge.vertical() {
        inner
    } else {
        inner.sum(F32::of_int(CAPTION_HEIGHT + ITEM_INNER_SPACING).negated())
    };
    room.greater(F32::of_int(MIN_PREVIEW as int))
}

/// Length of one workspace item along the bar.
pub open spec fn item_length(size: u32, edge: Edge, aspect: F32) -> F32 {
    if edge.vertical() {
        thickness(size, edge).quotient(aspect).sum(F32::of_int(ITEM_INNER_SPACING as int)).sum(
            F32::of_int(CAPTION_HEIGHT as int),
        ).sum(F32::of_int(2 * ITEM_PADDING))
    } else {
        thickness(size, edge).product(aspect).sum(F32::of_int(2 * ITEM_PADDING))
    }
}

/// Length of a bar that is as long as its items: the items, the spacing
/// between them and the padding at both ends, rounded up.
pub open spec fn length(size: u32, edge: Edge, workspaces: nat, aspect: F32) -> int {
    let n = F32::of_int(if workspaces < 1 {
        1
    } else {
        workspaces as int
    });
    let items = n.product(item_length(size, edge, aspect));
    let gaps = n.sum(F32::of_int(1).negated()).product(F32::of_int(ITEM_SPACING as int));
    items.sum(gaps).sum(F32::of_int(2 * BAR_PADDING)).raised().truncated(0, u32::MAX as int)
}

/// Length of the media block along the bar.
pub open spec fn media_length(size: u32, edge: Edge) -> int {
    let t = thickness(size, edge);
    (if edge.vertical() {
        t.sum(F32::of_int(2 * CAPTION_HEIGHT)).sum(F32::of_int(MEDIA_BUTTONS_HEIGHT as int)).sum(
            F32::of_int(3 * ITEM_INNER_SPACING),
        )
    } else {
        t.sum(F32::of_int(2 * ITEM_PADDING))
    }).truncated(0, u32::MAX as int)
}

/// Preview thickness available across the bar, accounting for padding and
/// caption.
pub fn preview_thickness(size: u32, edge: Edge) -> (t: F32)
    ensures
        t == thickness(size, edge),
{
    let across: F32 = F32::from_u64(2 * (BAR_PADDING + ITEM_PADDING));
    let inner: F32 = F32::from_u64(size as u64).minus(&across);
    let room: F32 = if edge.is_vertical() {
        inner
    } else {
        inner.minus(&F32::from_u64(CAPTION_HEIGHT + ITEM_INNER_SPACING))
    };
    room.max(&F32::from_u64(MIN_PREVIEW))
}

/// Bar length along the edge for shrink-to-content mode.
pub fn bar_length(size: u32, edge: Edge, workspaces: usize, output_aspect: F32) -> (len: u32)
    ensures
        len == length(size, edge, workspaces as nat, output_aspect),
{
    let count: u64 = if workspaces < 1 {
        1
    } else {
        workspaces as u64
    };
    let n: F32 = F32::from_u64(count);
    let t: F32 = preview_thickness(size, edge);
    let item: F32 = if edge.is_vertical() {
        t.over(&output_aspect).plus(&F32::from_u64(ITEM_INNER_SPACING)).plus(
            &F32::from_u64(CAPTION_HEIGHT),
        ).plus(&F32::from_u64(2 * ITEM_PADDING))
    } else {
        t.times(&output_aspect).plus(&F32::from_u64(2 * ITEM_PADDING))
    };
    let items: F32 = n.times(&item);
    let gaps: F32 = n.minus(&F32::from_u64(1)).times(&F32::from_u64(ITEM_SPACING));
    items.plus(&gaps).plus(&F32::from_u64(2 * BAR_PADDING)).ceil().to_u32()
}

/// Length the media control block adds along the bar's own axis. On a vertical
/// bar it is a stack of art, two lines of text and buttons; on a horizontal
/// bar it is as wide as the art.
pub fn media_block_length(size: u32, edge: Edge) -> (len: u32)
    ensures
        len == media_length(size, edge),
{
    let t: F32 = preview_thickness(size, edge);
    if edge.is_vertical() {
        t.plus(&F32::from_u64(2 * CAPTION_HEIGHT)).plus(&F32::from_u64(MEDIA_BUTTONS_HEIGHT)).plus(
            &F32::from_u64(3 * ITEM_INNER_SPACING),
        ).to_u32()
    } else {
        t.plus(&F32::from_u64(2 * ITEM_PADDING)).to_u32()
    }
}

/// The larger of two integers.
pub open spec fn larger(a: int, b: int) -> int {
    if a < b {
        b
    } else {
        a
    }
}

/// For every size that a screen can have, the preview thickness is the plain
/// difference, and at least the minimum.
pub proof fn preview_thickness_is_exact(size: u32, edge: Edge)
    requires
        size <= 0xff_0000,
    ensures
        thickness(size, edge) == F32::of_int(
            larger(
                if edge.vertical() {
                    size - 24
                } else {
                    size - 48
                },
                32,
            ),
        ),
{
    whole_negation(24);
    whole_sums_are_exact(size as int, -24);
    if !edge.vertical() {
        whole_sums_are_exact(size - 24, -24);
        whole_maximum(size - 48, 32);
    } else {
        whole_maximum(size - 24, 32);
    }
}

/// For every size that a screen can have, the media block is the preview
/// thickness plus 80 on a vertical bar and plus 8 on a horizontal one.
pub proof fn media_block_length_is_exact(size: u32, edge: Edge)
    requires
        size <= 0xff_0000,
    ensures
        media_length(size, edge) == if edge.vertical() {
            larger(size - 24, 32) + 80
        } else {
            larger(size - 48, 32) + 8
        },
{
    preview_thickness_is_exact(size, edge);
    if edge.vertical() {
        let t = larger(size - 24, 32);
        whole_sums_are_exact(t, 40);
        whole_sums_are_exact(t + 40, 28);
        whole_sums_are_exact(t + 68, 12);
        whole_truncation(t + 80, u32::MAX as int);
    } else {
        let t = larger(size - 48, 32);
        whole_sums_are_exact(t, 8);
        whole_truncation(t + 8, u32::MAX as int);
    }
}

/// A bar holds its items, a gap of eight between each two of them and eight at both
/// ends; without workspaces there is room for one. An item is as long as its
/// preview, which is the thickness over the aspect on a vertical bar and times the
/// aspect on a horizontal one, and eight more; on a vertical bar the caption below
/// it takes another 24.
pub proof fn bars_hold_their_items(
    size: u32,
    edge: Edge,
    workspaces: nat,
    aspect: F32,
    preview: int,
)
    requires
        size <= 0xff_0000,
        preview >= 0,
        edge is Left || edge is Right ==> thickness(size, edge).quotient(aspect) == F32::of_int(
            preview,
        ),
        edge is Top || edge is Bottom ==> thickness(size, edge).product(aspect) == F32::of_int(
            preview,
        ),
        larger(workspaces as int, 1) * (preview + 40) + 8 <= exact_limit(),
    ensures
        ({
            let n = larger(workspaces as int, 1);
            let item = preview + if edge is Left || edge is Right {
                32int
            } else {
                8
            };
            length(size, edge, workspaces, aspect) == n * item + (n - 1) * 8 + 16
        }),
{
    let n = larger(workspaces as int, 1);
    let item = preview + if edge is Left || edge is Right {
        32int
    } else {
        8
    };
    assert(n * (preview + 40) >= preview + 40 && n * (preview + 40) >= 40 * n)
        by (nonlinear_arith)
        requires
            n >= 1,
            preview >= 0,
    ;
    if edge is Left || edge is Right {
        whole_sums_are_exact(preview, 4);
        whole_sums_are_exact(preview + 4, 20);
        whole_sums_are_exact(preview + 24, 8);
    } else {
        whole_sums_are_exact(preview, 8);
    }
    assert(item_length(size, edge, aspect) == F32::of_int(item));
    assert(0 <= n * item && n * item + n * 8 <= n * (preview + 40)) by (nonlinear_arith)
        requires
            n >= 1,
            0 <= item <= preview + 32,
    ;
    whole_products_are_exact(n, item);
    whole_differences_are_exact(n, 1);
    whole_products_are_exact(n - 1, 8);
    whole_sums_are_exact(n * item, (n - 1) * 8);
    whole_sums_are_exact(n * item + (n - 1) * 8, 16);
    whole_rounding(n * item + (n - 1) * 8 + 16);
    whole_truncation(n * item + (n - 1) * 8 + 16, u32::MAX as int);
}

/// A bar of one item is the least whole length that holds it and the padding of
/// sixteen, whatever the length of the item.
pub proof fn bars_are_long_enough(size: u32, edge: Edge, aspect: F32)
    requires
        ({
            let item = item_length(size, edge, aspect);
            let all = item.sum(F32::of_int(16));
            &&& item.finite() && !item.negative() && item.size() > 0
            &&& all.finite() && !all.negative() && all.size() <= exact_limit() * one(24)
        }),
    ensures
        ({
            let all = item_length(size, edge, aspect).sum(F32::of_int(16));
            let n = length(size, edge, 1, aspect);
            &&& all.size() <= n * one(24)
            &&& (n - 1) * one(24) < all.size()
            &&& length(size, edge, 0, aspect) == n
        }),
{
    let item = item_length(size, edge, aspect);
    one_is_neutral(item);
    whole_numbers_are_exact(1);
    whole_numbers_are_exact(8);
    whole_numbers_are_exact(0);
    whole_differences_are_exact(1, 1);
    zero_times(F32::of_int(8));
    let o = one(24);
    let s = item.size();
    assert(0 * o == 0) by (nonlinear_arith);
    assert(F32::of_int(1).size() * s == s * F32::of_int(1).size()) by (nonlinear_arith);
    assert(F32::of_int(1).product(item) == item);
    lemma_round_own_value(24, item.mag());
    assert(item.sum(F32::of_int(0)) == item);
    whole_parts_are_exact(item.sum(F32::of_int(16)), 0, u32::MAX as int);
}

} // verus!
