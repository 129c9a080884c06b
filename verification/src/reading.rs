//! Putting the panels into reading order.

use crate::config::ReadingDirection;
use crate::order::{
    insertion_sorted, lemma_insert_position, lemma_sort_idempotent, lemma_sorted_in_order,
    neighbours_in_order, one_way,
};
use crate::panel::{abs_int, min_int, Panel, PanelView, views};
use vstd::prelude::*;

verus! {

/// Whether two boxes count as one row when ordering: their tops differ by
/// less than half the smaller height.
pub open spec fn same_band(a: PanelView, b: PanelView) -> bool {
    2 * abs_int(a.y - b.y) < min_int(a.height(), b.height())
}

/// Whether `a` is read before `b`: in one row the one further toward the
/// side where reading starts, else the one whose top is higher.
pub open spec fn reads_before(a: PanelView, b: PanelView, direction: ReadingDirection) -> bool {
    if same_band(a, b) {
        match direction {
            ReadingDirection::Ltr => a.x < b.x,
            ReadingDirection::Rtl => b.x < a.x,
        }
    } else {
        a.y < b.y
    }
}

/// The relation by which a page is ordered.
pub open spec fn reading_order(direction: ReadingDirection) -> spec_fn(PanelView, PanelView)
    -> bool {
    |a: PanelView, b: PanelView| reads_before(a, b, direction)
}

/// The panels in reading order.
pub open spec fn in_reading_order(panels: Seq<PanelView>, direction: ReadingDirection) -> Seq<
    PanelView,
> {
    insertion_sorted(panels, reading_order(direction))
}

/// Whether no panel of the page is read before the panel in front of it:
/// of two panels that follow each other in one row the first lies no further
/// along the reading direction, and of two in different rows the first
/// starts no lower.
pub open spec fn reads_in_order(panels: Seq<PanelView>, direction: ReadingDirection) -> bool {
    neighbours_in_order(panels, reading_order(direction))
}

/// A page in reading order reads in order.
pub proof fn lemma_reading_order_reads_in_order(
    panels: Seq<PanelView>,
    direction: ReadingDirection,
)
    ensures
        reads_in_order(in_reading_order(panels, direction), direction),
{
    lemma_reading_one_way(direction);
    lemma_sorted_in_order(panels, reading_order(direction));
}

/// Of two panels at most one is read before the other.
pub proof fn lemma_reading_one_way(direction: ReadingDirection)
    ensures
        one_way(reading_order(direction)),
{
    let before = reading_order(direction);
    assert forall|a: PanelView, b: PanelView| #[trigger] before(a, b) implies !before(b, a) by {
        assert(same_band(a, b) == same_band(b, a));
    }
}

/// Sorting a page that is in reading order gives the same page.
pub proof fn lemma_reading_order_idempotent(panels: Seq<PanelView>, direction: ReadingDirection)
    ensures
        in_reading_order(in_reading_order(panels, direction), direction) == in_reading_order(
            panels,
            direction,
        ),
{
    lemma_reading_one_way(direction);
    lemma_sort_idempotent(panels, reading_order(direction));
}

fn goes_before(a: &Panel, b: &Panel, direction: ReadingDirection) -> (res: bool)
    ensures
        res == reads_before(a@, b@, direction),
        res == reading_order(direction)(a@, b@),
{
    let ay: i64 = a.y as i64;
    let by: i64 = b.y as i64;
    let gap: i64 = if ay >= by { ay - by } else { by - ay };
    let ha: i64 = a.b as i64 - a.y as i64;
    let hb: i64 = b.b as i64 - b.y as i64;
    let ha: i64 = if ha < 1 { 1 } else { ha };
    let hb: i64 = if hb < 1 { 1 } else { hb };
    let least: i64 = if ha <= hb { ha } else { hb };
    if 2 * gap < least {
        match direction {
            ReadingDirection::Ltr => a.x < b.x,
            ReadingDirection::Rtl => b.x < a.x,
        }
    } else {
        a.y < b.y
    }
}

/// Orders the panels for reading. Each panel in turn, from the first, is put
/// behind the panels sorted so far and moved toward the front past every
/// panel that it is read before.
pub fn sort_panels(panels: &mut Vec<Panel>, direction: ReadingDirection)
    ensures
        views(final(panels)@) == in_reading_order(views(old(panels)@), direction),
        reads_in_order(views(final(panels)@), direction),
        final(panels)@.len() == old(panels)@.len(),
{
    let ghost before = reading_order(direction);
    let ghost input = views(panels@);
    let ghost source = panels@;
    let mut out: Vec<Panel> = Vec::new();
    let mut i: usize = 0;
    let total: usize = panels.len();
    assert(input.take(0) =~= Seq::<PanelView>::empty());
    assert(views(out@) =~= Seq::<PanelView>::empty());
    while i < total
        invariant
            i <= total,
            before == reading_order(direction),
            input == views(source),
            source.len() == total,
            panels@.len() == total,
            forall|k: int| i <= k < total ==> #[trigger] panels@[k] == source[k],
            out@.len() == i,
            views(out@) == insertion_sorted(input.take(i as int), before),
        decreases total - i,
    {
        let mut p = Panel::new(0, 0, 0, 0, Vec::new());
        core::mem::swap(&mut panels[i], &mut p);
        assert(p@ == input[i as int]);
        let mut pos: usize = out.len();
        while pos > 0 && goes_before(&p, &out[pos - 1], direction)
            invariant
                pos <= out@.len(),
                before == reading_order(direction),
                forall|k: int| pos <= k < out@.len() ==> before(p@, #[trigger] views(out@)[k]),
            decreases pos,
        {
            assert(views(out@)[pos - 1] == out@[pos - 1]@);
            pos -= 1;
        }
        let ghost sorted = views(out@);
        proof {
            if pos > 0 {
                assert(sorted[pos - 1] == out@[pos - 1]@);
            }
            lemma_insert_position(sorted, p@, before, pos as int);
            assert(input.take(i + 1).drop_last() =~= input.take(i as int));
            assert(input.take(i + 1).last() == p@);
        }
        out.insert(pos, p);
        assert(views(out@) =~= sorted.insert(pos as int, p@));
        i += 1;
    }
    assert(input.take(i as int) =~= input);
    proof {
        lemma_reading_order_reads_in_order(input, direction);
    }
    *panels = out;
}

} // verus!
