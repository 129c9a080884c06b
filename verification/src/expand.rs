//! Growing every panel toward its neighbours, or to the rim of the layout.

use crate::config::Gutters;
use crate::panel::{
    is_neighbour, max_int, min_int, no_neighbour, views, Direction, Panel, PanelView,
};
use vstd::prelude::*;

verus! {

/// The edge of a box on the given side.
pub open spec fn own_edge(p: PanelView, direction: Direction) -> int {
    match direction {
        Direction::Left => p.x,
        Direction::Top => p.y,
        Direction::Right => p.r,
        Direction::Bottom => p.b,
    }
}

/// The gutter of a side, which is added to the facing edge of the neighbour there.
pub open spec fn gutter_offset(gutters: Gutters, direction: Direction) -> int {
    match direction {
        Direction::Left => gutters.x as int,
        Direction::Top => gutters.y as int,
        Direction::Right => gutters.r as int,
        Direction::Bottom => gutters.b as int,
    }
}

/// Whether moving an edge from `current` to `candidate` makes the box larger.
pub open spec fn is_outward(direction: Direction, candidate: int, current: int) -> bool {
    match direction {
        Direction::Left | Direction::Top => candidate < current,
        Direction::Right | Direction::Bottom => candidate > current,
    }
}

/// The outermost edge of the layout on the given side: the least left or top,
/// the greatest right or bottom. Zero for an empty layout.
pub open spec fn layout_extreme(panels: Seq<PanelView>, direction: Direction) -> int
    decreases panels.len(),
{
    if panels.len() == 0 {
        0
    } else {
        let last = own_edge(panels.last(), direction);
        if panels.len() == 1 {
            last
        } else {
            let rest = layout_extreme(panels.drop_last(), direction);
            match direction {
                Direction::Left | Direction::Top => min_int(rest, last),
                Direction::Right | Direction::Bottom => max_int(rest, last),
            }
        }
    }
}

/// Where the edge of `p` on the given side is asked to go: next to the
/// neighbour's facing edge with the gutter applied, or to the rim of the
/// layout when nothing faces `p` there.
pub open spec fn expansion_target(
    p: PanelView,
    direction: Direction,
    panels: Seq<PanelView>,
    gutters: Gutters,
) -> int {
    if no_neighbour(p, direction, panels) {
        layout_extreme(panels, direction)
    } else {
        let k = choose|k: int| is_neighbour(p, direction, panels, k);
        panels[k].facing_edge(direction) + gutter_offset(gutters, direction)
    }
}

/// The edge after expansion: the target where that enlarges the box, else unchanged.
pub open spec fn expanded_edge(
    p: PanelView,
    direction: Direction,
    panels: Seq<PanelView>,
    gutters: Gutters,
) -> int {
    let target = expansion_target(p, direction, panels, gutters);
    if is_outward(direction, target, own_edge(p, direction)) {
        target
    } else {
        own_edge(p, direction)
    }
}

/// The panel after expansion within the layout `panels`.
pub open spec fn expanded(p: PanelView, panels: Seq<PanelView>, gutters: Gutters) -> PanelView {
    PanelView {
        x: expanded_edge(p, Direction::Left, panels, gutters),
        y: expanded_edge(p, Direction::Top, panels, gutters),
        r: expanded_edge(p, Direction::Right, panels, gutters),
        b: expanded_edge(p, Direction::Bottom, panels, gutters),
        polygon: p.polygon,
    }
}

/// Every facing edge with its gutter applied is still a coordinate.
pub open spec fn gutters_fit(panels: Seq<PanelView>, gutters: Gutters) -> bool {
    forall|k: int|
        #![trigger panels[k]]
        0 <= k < panels.len() ==> {
            &&& i32::MIN <= panels[k].r + gutters.x <= i32::MAX
            &&& i32::MIN <= panels[k].b + gutters.y <= i32::MAX
            &&& i32::MIN <= panels[k].x + gutters.r <= i32::MAX
            &&& i32::MIN <= panels[k].y + gutters.b <= i32::MAX
        }
}

/// At most one panel is the neighbour on a side.
pub proof fn lemma_neighbour_unique(
    p: PanelView,
    direction: Direction,
    panels: Seq<PanelView>,
    k1: int,
    k2: int,
)
    requires
        is_neighbour(p, direction, panels, k1),
        is_neighbour(p, direction, panels, k2),
    ensures
        k1 == k2,
{
    if k1 < k2 {
        assert(p.faces(direction, panels[k2]));
        assert(p.faces(direction, panels[k1]));
    } else if k2 < k1 {
        assert(p.faces(direction, panels[k1]));
        assert(p.faces(direction, panels[k2]));
    }
}

/// Where some panel faces `p` on a side, one of them is the neighbour there.
pub proof fn lemma_neighbour_exists(p: PanelView, direction: Direction, panels: Seq<PanelView>)
    requires
        !no_neighbour(p, direction, panels),
    ensures
        exists|k: int| is_neighbour(p, direction, panels, k),
    decreases panels.len(),
{
    let last = panels.len() - 1;
    let front = panels.drop_last();
    assert(panels.len() > 0);
    assert(forall|j: int| 0 <= j < front.len() ==> front[j] == panels[j]);
    if no_neighbour(p, direction, front) {
        assert(p.faces(direction, panels[last])) by {
            if !p.faces(direction, panels[last]) {
                assert forall|j: int| 0 <= j < panels.len() implies !#[trigger] p.faces(
                    direction,
                    panels[j],
                ) by {
                    if j < last {
                        assert(!p.faces(direction, front[j]));
                    }
                }
            }
        }
        assert forall|j: int| 0 <= j < last implies !#[trigger] p.faces(direction, panels[j]) by {
            assert(!p.faces(direction, front[j]));
        }
        assert(is_neighbour(p, direction, panels, last));
    } else {
        lemma_neighbour_exists(p, direction, front);
        let k0 = choose|k: int| is_neighbour(p, direction, front, k);
        let e0 = panels[k0].facing_edge(direction);
        let e1 = panels[last].facing_edge(direction);
        assert(p.faces(direction, front[k0]));
        let low = direction == Direction::Left || direction == Direction::Top;
        let takes = p.faces(direction, panels[last]) && (if low { e1 >= e0 } else { e1 < e0 });
        let k = if takes { last } else { k0 };
        assert forall|j: int|
            0 <= j < panels.len() && #[trigger] p.faces(direction, panels[j]) implies (if low {
            panels[j].facing_edge(direction) <= panels[k].facing_edge(direction)
        } else {
            panels[j].facing_edge(direction) >= panels[k].facing_edge(direction)
        }) by {
            if j < last {
                assert(p.faces(direction, front[j]));
            }
        }
        if low {
            assert forall|j: int|
                k < j < panels.len() && #[trigger] p.faces(
                    direction,
                    panels[j],
                ) implies panels[j].facing_edge(direction) < panels[k].facing_edge(direction) by {
                if j < last {
                    assert(p.faces(direction, front[j]));
                }
            }
        } else {
            assert forall|j: int|
                0 <= j < k && #[trigger] p.faces(
                    direction,
                    panels[j],
                ) implies panels[j].facing_edge(direction) > panels[k].facing_edge(direction) by {
                if j < last {
                    assert(p.faces(direction, front[j]));
                }
            }
        }
        assert(is_neighbour(p, direction, panels, k));
    }
}

/// The rim of a layout lies at or beyond the edge of each of its panels.
pub proof fn lemma_extreme_bounds(panels: Seq<PanelView>, direction: Direction, k: int)
    requires
        0 <= k < panels.len(),
    ensures
        match direction {
            Direction::Left | Direction::Top => layout_extreme(panels, direction) <= own_edge(
                panels[k],
                direction,
            ),
            Direction::Right | Direction::Bottom => layout_extreme(panels, direction)
                >= own_edge(panels[k], direction),
        },
    decreases panels.len(),
{
    if panels.len() > 1 && k < panels.len() - 1 {
        lemma_extreme_bounds(panels.drop_last(), direction, k);
    }
}

/// Expansion never moves an edge inward: a left or top edge does not grow,
/// a right or bottom edge does not shrink, and the outline stays.
pub proof fn lemma_expansion_never_shrinks(
    p: PanelView,
    panels: Seq<PanelView>,
    gutters: Gutters,
)
    ensures
        expanded(p, panels, gutters).x <= p.x,
        expanded(p, panels, gutters).y <= p.y,
        expanded(p, panels, gutters).r >= p.r,
        expanded(p, panels, gutters).b >= p.b,
        expanded(p, panels, gutters).polygon == p.polygon,
{
}

/// Whether an edge after expansion is the edge as it was, the rim of the
/// layout, or the facing edge of a panel of the layout with the gutter applied.
pub open spec fn edge_from_layout(
    edge: int,
    p: PanelView,
    direction: Direction,
    panels: Seq<PanelView>,
    gutters: Gutters,
) -> bool {
    ||| edge == own_edge(p, direction)
    ||| edge == layout_extreme(panels, direction)
    ||| exists|k: int|
        0 <= k < panels.len() && edge == (#[trigger] panels[k]).facing_edge(direction)
            + gutter_offset(gutters, direction)
}

/// Whether all four edges of the expanded panel come from the layout.
pub open spec fn expansion_from_layout(p: PanelView, panels: Seq<PanelView>, gutters: Gutters)
    -> bool {
    let e = expanded(p, panels, gutters);
    &&& edge_from_layout(e.x, p, Direction::Left, panels, gutters)
    &&& edge_from_layout(e.y, p, Direction::Top, panels, gutters)
    &&& edge_from_layout(e.r, p, Direction::Right, panels, gutters)
    &&& edge_from_layout(e.b, p, Direction::Bottom, panels, gutters)
}

/// The layout with every panel expanded, each within the layout as it was.
pub open spec fn expanded_all(panels: Seq<PanelView>, gutters: Gutters) -> Seq<PanelView> {
    Seq::new(panels.len(), |i: int| expanded(panels[i], panels, gutters))
}

fn direction_extreme(panels: &Vec<Panel>, direction: Direction) -> (e: i32)
    ensures
        e == layout_extreme(views(panels@), direction),
{
    if panels.len() == 0 {
        return 0;
    }
    let ghost all = views(panels@);
    let low: bool = match direction {
        Direction::Left | Direction::Top => true,
        Direction::Right | Direction::Bottom => false,
    };
    let mut acc: i32 = edge_of(&panels[0], direction);
    let mut i: usize = 1;
    assert(all.take(1).last() == panels@[0]@);
    while i < panels.len()
        invariant
            1 <= i <= panels.len(),
            all == views(panels@),
            low == (direction == Direction::Left || direction == Direction::Top),
            acc == layout_extreme(all.take(i as int), direction),
        decreases panels.len() - i,
    {
        let e: i32 = edge_of(&panels[i], direction);
        assert(all.take(i + 1).drop_last() == all.take(i as int));
        assert(all.take(i + 1).last() == panels@[i as int]@);
        if low {
            if e < acc {
                acc = e;
            }
        } else {
            if e > acc {
                acc = e;
            }
        }
        i += 1;
    }
    assert(all.take(i as int) == all);
    acc
}

fn edge_of(p: &Panel, direction: Direction) -> (e: i32)
    ensures
        e == own_edge(p@, direction),
{
    match direction {
        Direction::Left => p.x,
        Direction::Top => p.y,
        Direction::Right => p.r,
        Direction::Bottom => p.b,
    }
}

fn new_edge(p: &Panel, direction: Direction, panels: &Vec<Panel>, gutters: &Gutters, rim: i32)
    -> (e: i32)
    requires
        gutters_fit(views(panels@), *gutters),
        rim == layout_extreme(views(panels@), direction),
    ensures
        e == expanded_edge(p@, direction, views(panels@), *gutters),
        edge_from_layout(e as int, p@, direction, views(panels@), *gutters),
{
    let ghost all = views(panels@);
    let current: i32 = edge_of(p, direction);
    let target: i32 = match p.find_neighbour_panel(direction, panels.as_slice(), gutters) {
        Some(n) => {
            proof {
                let k = choose|k: int|
                    is_neighbour(p@, direction, all, k) && *n == #[trigger] panels@[k];
                let k2 = choose|k: int| is_neighbour(p@, direction, all, k);
                lemma_neighbour_unique(p@, direction, all, k, k2);
                assert(p@.faces(direction, all[k]));
                assert(all[k] == n@);
                assert(0 <= k < all.len());
            }
            match direction {
                Direction::Left => n.r + gutters.x,
                Direction::Top => n.b + gutters.y,
                Direction::Right => n.x + gutters.r,
                Direction::Bottom => n.y + gutters.b,
            }
        },
        None => rim,
    };
    let outward: bool = match direction {
        Direction::Left | Direction::Top => target < current,
        Direction::Right | Direction::Bottom => target > current,
    };
    if outward { target } else { current }
}

/// Moves each edge of each panel outward to its target, all targets being
/// taken from the layout as it was before the call.
pub fn expand_panels(panels: &mut Vec<Panel>, gutters: &Gutters)
    requires
        gutters_fit(views(old(panels)@), *gutters),
    ensures
        final(panels)@.len() == old(panels)@.len(),
        views(final(panels)@) == expanded_all(views(old(panels)@), *gutters),
        forall|i: int|
            #![trigger final(panels)@[i]]
            0 <= i < old(panels)@.len() ==> {
                &&& final(panels)@[i].x <= old(panels)@[i].x
                &&& final(panels)@[i].y <= old(panels)@[i].y
                &&& final(panels)@[i].r >= old(panels)@[i].r
                &&& final(panels)@[i].b >= old(panels)@[i].b
                &&& final(panels)@[i].polygon@ == old(panels)@[i].polygon@
            },
        forall|i: int|
            0 <= i < old(panels)@.len() ==> expansion_from_layout(
                #[trigger] views(old(panels)@)[i],
                views(old(panels)@),
                *gutters,
            ),
{
    let n: usize = panels.len();
    let ghost all = views(panels@);
    let rim_x: i32 = direction_extreme(panels, Direction::Left);
    let rim_y: i32 = direction_extreme(panels, Direction::Top);
    let rim_r: i32 = direction_extreme(panels, Direction::Right);
    let rim_b: i32 = direction_extreme(panels, Direction::Bottom);
    let mut boxes: Vec<(i32, i32, i32, i32)> = Vec::new();
    let mut i: usize = 0;
    while i < n
        invariant
            i <= n,
            n == panels.len(),
            *panels == *old(panels),
            all == views(panels@),
            gutters_fit(all, *gutters),
            rim_x == layout_extreme(all, Direction::Left),
            rim_y == layout_extreme(all, Direction::Top),
            rim_r == layout_extreme(all, Direction::Right),
            rim_b == layout_extreme(all, Direction::Bottom),
            boxes@.len() == i,
            forall|k: int|
                0 <= k < i ==> {
                    let e = expanded(all[k], all, *gutters);
                    let t = #[trigger] boxes@[k];
                    t.0 == e.x && t.1 == e.y && t.2 == e.r && t.3 == e.b
                },
            forall|k: int| 0 <= k < i ==> expansion_from_layout(#[trigger] all[k], all, *gutters),
        decreases n - i,
    {
        let p = &panels[i];
        assert(all[i as int] == p@);
        let x: i32 = new_edge(p, Direction::Left, panels, gutters, rim_x);
        let y: i32 = new_edge(p, Direction::Top, panels, gutters, rim_y);
        let r: i32 = new_edge(p, Direction::Right, panels, gutters, rim_r);
        let b: i32 = new_edge(p, Direction::Bottom, panels, gutters, rim_b);
        boxes.push((x, y, r, b));
        i += 1;
    }
    let mut i: usize = 0;
    while i < n
        invariant
            i <= n,
            n == panels.len(),
            n == old(panels)@.len(),
            all == views(old(panels)@),
            boxes@.len() == n,
            forall|k: int|
                0 <= k < n ==> {
                    let e = expanded(all[k], all, *gutters);
                    let t = #[trigger] boxes@[k];
                    t.0 == e.x && t.1 == e.y && t.2 == e.r && t.3 == e.b
                },
            forall|k: int|
                0 <= k < i ==> (#[trigger] panels@[k])@ == expanded(all[k], all, *gutters),
            forall|k: int| i <= k < n ==> #[trigger] panels@[k] == old(panels)@[k],
        decreases n - i,
    {
        let t = boxes[i];
        assert(all[i as int] == old(panels)@[i as int]@);
        let p = &mut panels[i];
        p.x = t.0;
        p.y = t.1;
        p.r = t.2;
        p.b = t.3;
        i += 1;
    }
    proof {
        assert forall|k: int| 0 <= k < n implies {
            &&& panels@[k].x <= old(panels)@[k].x
            &&& panels@[k].y <= old(panels)@[k].y
            &&& panels@[k].r >= old(panels)@[k].r
            &&& panels@[k].b >= old(panels)@[k].b
            &&& panels@[k].polygon@ == old(panels)@[k].polygon@
        } by {
            lemma_expansion_never_shrinks(all[k], all, *gutters);
            assert(panels@[k]@ == expanded(all[k], all, *gutters));
            assert(all[k] == old(panels)@[k]@);
        }
        assert(views(panels@) =~= expanded_all(all, *gutters));
    }
}

} // verus!
