//! Dropping small panels, and merging small panels that lie close together.

use crate::config::Ratio;
use crate::panel::{Panel, PanelView, views};
use vstd::prelude::*;

verus! {

/// The panels of the list that are not small on the page, in their order.
pub open spec fn large_only(s: Seq<PanelView>, img_w: int, img_h: int, ratio: Ratio) -> Seq<
    PanelView,
>
    decreases s.len(),
{
    if s.len() == 0 {
        s
    } else {
        let front = large_only(s.drop_last(), img_w, img_h, ratio);
        if s.last().is_small(img_w, img_h, ratio) {
            front
        } else {
            front.push(s.last())
        }
    }
}

/// Whether no panel of the list is small on the page.
pub open spec fn none_small(s: Seq<PanelView>, img_w: int, img_h: int, ratio: Ratio) -> bool {
    forall|k: int| 0 <= k < s.len() ==> !(#[trigger] s[k]).is_small(img_w, img_h, ratio)
}

/// What is left of the list holds no small panel and is no longer than the list.
pub proof fn lemma_large_only(s: Seq<PanelView>, img_w: int, img_h: int, ratio: Ratio)
    ensures
        none_small(large_only(s, img_w, img_h, ratio), img_w, img_h, ratio),
        large_only(s, img_w, img_h, ratio).len() <= s.len(),
        none_small(s, img_w, img_h, ratio) ==> large_only(s, img_w, img_h, ratio) == s,
    decreases s.len(),
{
    if s.len() > 0 {
        lemma_large_only(s.drop_last(), img_w, img_h, ratio);
        if none_small(s, img_w, img_h, ratio) {
            assert(none_small(s.drop_last(), img_w, img_h, ratio)) by {
                assert forall|k: int| 0 <= k < s.drop_last().len() implies !(
                #[trigger] s.drop_last()[k]).is_small(img_w, img_h, ratio) by {
                    assert(!s[k].is_small(img_w, img_h, ratio));
                }
            }
            assert(!s[s.len() - 1].is_small(img_w, img_h, ratio));
            assert(s.drop_last().push(s.last()) =~= s);
        }
    }
}

/// Removes the panels that are small on a page of `img_w` by `img_h`. The
/// panels that stay keep their order and their outlines.
pub fn retain_large(panels: &mut Vec<Panel>, img_w: i32, img_h: i32, ratio: Ratio)
    ensures
        views(final(panels)@) == large_only(
            views(old(panels)@),
            img_w as int,
            img_h as int,
            ratio,
        ),
        none_small(views(final(panels)@), img_w as int, img_h as int, ratio),
        final(panels)@.len() <= old(panels)@.len(),
{
    let ghost input = views(panels@);
    let ghost source = panels@;
    let total: usize = panels.len();
    let mut out: Vec<Panel> = Vec::new();
    let mut i: usize = 0;
    assert(input.take(0) =~= Seq::<PanelView>::empty());
    assert(views(out@) =~= Seq::<PanelView>::empty());
    while i < total
        invariant
            i <= total,
            input == views(source),
            source.len() == total,
            panels@.len() == total,
            forall|k: int| i <= k < total ==> #[trigger] panels@[k] == source[k],
            views(out@) == large_only(input.take(i as int), img_w as int, img_h as int, ratio),
        decreases total - i,
    {
        let ghost held = out@;
        assert(input.take(i + 1).drop_last() =~= input.take(i as int));
        assert(input.take(i + 1).last() == source[i as int]@);
        if !panels[i].is_small(img_w, img_h, ratio) {
            let mut p = Panel::new(0, 0, 0, 0, Vec::new());
            core::mem::swap(&mut panels[i], &mut p);
            out.push(p);
            assert(views(out@) =~= views(held).push(p@));
        }
        i += 1;
    }
    assert(input.take(i as int) =~= input);
    proof {
        lemma_large_only(input, img_w as int, img_h as int, ratio);
    }
    *panels = out;
}

/// A growing box looks at the panels from position `j` on and takes in each
/// small panel that is close to it as it then is; a panel taken in leaves the
/// list. Gives the list, the box, and whether any panel was taken in.
pub open spec fn gather(
    s: Seq<PanelView>,
    j: int,
    big: PanelView,
    img_w: int,
    img_h: int,
    ratio: Ratio,
) -> (Seq<PanelView>, PanelView, bool)
    decreases s.len(), s.len() - j,
{
    if j < 0 || j >= s.len() {
        (s, big, false)
    } else if s[j].is_small(img_w, img_h, ratio) && s[j].is_close(big) {
        let rest = gather(s.remove(j), j, big.merge(s[j]), img_w, img_h, ratio);
        (rest.0, rest.1, true)
    } else {
        gather(s, j + 1, big, img_w, img_h, ratio)
    }
}

/// The list from position `i` on is gone through: a panel that is not small
/// stays; a small one gathers the small panels after it and leaves the list,
/// and the gathered box is noted in `added` where it took a panel in and is
/// not small itself. At the end the noted boxes follow the panels that stayed.
/// The test on the lengths always holds (`lemma_gather`).
pub open spec fn regroup(
    s: Seq<PanelView>,
    i: int,
    added: Seq<PanelView>,
    img_w: int,
    img_h: int,
    ratio: Ratio,
) -> Seq<PanelView>
    decreases s.len() - i,
{
    if i < 0 || i >= s.len() {
        s + added
    } else if !s[i].is_small(img_w, img_h, ratio) {
        regroup(s, i + 1, added, img_w, img_h, ratio)
    } else {
        let g = gather(s, i + 1, s[i].bare(), img_w, img_h, ratio);
        if i < g.0.len() <= s.len() {
            regroup(
                g.0.remove(i),
                i,
                if g.2 && !g.1.is_small(img_w, img_h, ratio) {
                    added.push(g.1)
                } else {
                    added
                },
                img_w,
                img_h,
                ratio,
            )
        } else {
            s + added
        }
    }
}

/// The list after its small panels have been merged or dropped.
pub open spec fn small_merged(s: Seq<PanelView>, img_w: int, img_h: int, ratio: Ratio) -> Seq<
    PanelView,
> {
    regroup(s, 0, Seq::empty(), img_w, img_h, ratio)
}

/// Gathering leaves the panels in front of position `j` as they are and
/// makes the list no longer.
pub proof fn lemma_gather(
    s: Seq<PanelView>,
    j: int,
    big: PanelView,
    img_w: int,
    img_h: int,
    ratio: Ratio,
)
    requires
        0 <= j <= s.len(),
    ensures
        j <= gather(s, j, big, img_w, img_h, ratio).0.len() <= s.len(),
        forall|k: int|
            0 <= k < j ==> #[trigger] gather(s, j, big, img_w, img_h, ratio).0[k] == s[k],
    decreases s.len(), s.len() - j,
{
    let out = gather(s, j, big, img_w, img_h, ratio).0;
    if j >= s.len() {
    } else if s[j].is_small(img_w, img_h, ratio) && s[j].is_close(big) {
        let cut = s.remove(j);
        lemma_gather(cut, j, big.merge(s[j]), img_w, img_h, ratio);
        assert forall|k: int| 0 <= k < j implies #[trigger] out[k] == s[k] by {
            assert(gather(cut, j, big.merge(s[j]), img_w, img_h, ratio).0[k] == cut[k]);
            assert(cut[k] == s[k]);
        }
    } else {
        lemma_gather(s, j + 1, big, img_w, img_h, ratio);
        assert forall|k: int| 0 <= k < j implies #[trigger] out[k] == s[k] by {
            assert(gather(s, j + 1, big, img_w, img_h, ratio).0[k] == s[k]);
        }
    }
}

/// After the regrouping no panel is small, given that none of those already
/// gone through or noted is.
pub proof fn lemma_regroup_none_small(
    s: Seq<PanelView>,
    i: int,
    added: Seq<PanelView>,
    img_w: int,
    img_h: int,
    ratio: Ratio,
)
    requires
        0 <= i <= s.len(),
        none_small(s.take(i), img_w, img_h, ratio),
        none_small(added, img_w, img_h, ratio),
    ensures
        none_small(regroup(s, i, added, img_w, img_h, ratio), img_w, img_h, ratio),
    decreases s.len() - i,
{
    if i >= s.len() {
        assert(s.take(i) =~= s);
    } else if !s[i].is_small(img_w, img_h, ratio) {
        assert forall|k: int| 0 <= k < i + 1 implies !(#[trigger] s.take(i + 1)[k]).is_small(
            img_w,
            img_h,
            ratio,
        ) by {
            if k < i {
                assert(s.take(i)[k] == s[k]);
            }
        }
        lemma_regroup_none_small(s, i + 1, added, img_w, img_h, ratio);
    } else {
        let g = gather(s, i + 1, s[i].bare(), img_w, img_h, ratio);
        lemma_gather(s, i + 1, s[i].bare(), img_w, img_h, ratio);
        let rest = g.0.remove(i);
        let noted = if g.2 && !g.1.is_small(img_w, img_h, ratio) {
            added.push(g.1)
        } else {
            added
        };
        assert forall|k: int| 0 <= k < i implies !(#[trigger] rest.take(i)[k]).is_small(
            img_w,
            img_h,
            ratio,
        ) by {
            assert(rest.take(i)[k] == s.take(i)[k]);
        }
        lemma_regroup_none_small(rest, i, noted, img_w, img_h, ratio);
    }
}

/// A list without small panels stays as it is.
pub proof fn lemma_regroup_of_large(
    s: Seq<PanelView>,
    i: int,
    added: Seq<PanelView>,
    img_w: int,
    img_h: int,
    ratio: Ratio,
)
    requires
        0 <= i,
        none_small(s, img_w, img_h, ratio),
    ensures
        regroup(s, i, added, img_w, img_h, ratio) == s + added,
    decreases s.len() - i,
{
    if i < s.len() {
        assert(!s[i].is_small(img_w, img_h, ratio));
        lemma_regroup_of_large(s, i + 1, added, img_w, img_h, ratio);
    }
}

/// Right after the small panels have been dropped there is nothing to merge.
pub proof fn lemma_merge_after_filter(s: Seq<PanelView>, img_w: int, img_h: int, ratio: Ratio)
    ensures
        small_merged(large_only(s, img_w, img_h, ratio), img_w, img_h, ratio) == large_only(
            s,
            img_w,
            img_h,
            ratio,
        ),
{
    let kept = large_only(s, img_w, img_h, ratio);
    lemma_large_only(s, img_w, img_h, ratio);
    lemma_regroup_of_large(kept, 0, Seq::empty(), img_w, img_h, ratio);
    assert(kept + Seq::<PanelView>::empty() =~= kept);
}

/// Merges the small panels that lie close together and drops those that
/// stay alone. From the first small panel on, each small panel gathers the
/// small panels after it that are close to the box gathered so far. The
/// panel and those it gathered leave the list; the gathered box is appended
/// at the end where it took in at least one panel and is no longer small.
pub fn merge_small_panels(panels: &mut Vec<Panel>, img_w: i32, img_h: i32, ratio: Ratio)
    ensures
        views(final(panels)@) == small_merged(
            views(old(panels)@),
            img_w as int,
            img_h as int,
            ratio,
        ),
        none_small(views(final(panels)@), img_w as int, img_h as int, ratio),
{
    let ghost input = views(panels@);
    let ghost w = img_w as int;
    let ghost h = img_h as int;
    let mut added: Vec<Panel> = Vec::new();
    let mut i: usize = 0;
    assert(views(added@) =~= Seq::<PanelView>::empty());
    assert(views(panels@).take(0) =~= Seq::<PanelView>::empty());
    while i < panels.len()
        invariant
            i <= panels@.len(),
            w == img_w as int,
            h == img_h as int,
            regroup(views(panels@), i as int, views(added@), w, h, ratio) == small_merged(
                input,
                w,
                h,
                ratio,
            ),
            none_small(views(panels@).take(i as int), w, h, ratio),
            none_small(views(added@), w, h, ratio),
        decreases panels@.len() - i,
    {
        let ghost cur = views(panels@);
        assert(cur[i as int] == panels@[i as int]@);
        if !panels[i].is_small(img_w, img_h, ratio) {
            assert forall|k: int| 0 <= k < i + 1 implies !(#[trigger] cur.take(i + 1)[k]).is_small(
                w,
                h,
                ratio,
            ) by {
                if k < i {
                    assert(cur.take(i as int)[k] == cur[k]);
                }
            }
            i += 1;
        } else {
            let seed = &panels[i];
            let mut big = Panel::new(seed.x, seed.y, seed.r, seed.b, Vec::new());
            assert(big@ == cur[i as int].bare());
            let mut joined: bool = false;
            let mut j: usize = i + 1;
            while j < panels.len()
                invariant
                    i < j <= panels@.len(),
                    panels@.len() <= cur.len(),
                    w == img_w as int,
                    h == img_h as int,
                    gather(views(panels@), j as int, big@, w, h, ratio).0 == gather(
                        cur,
                        i + 1,
                        cur[i as int].bare(),
                        w,
                        h,
                        ratio,
                    ).0,
                    gather(views(panels@), j as int, big@, w, h, ratio).1 == gather(
                        cur,
                        i + 1,
                        cur[i as int].bare(),
                        w,
                        h,
                        ratio,
                    ).1,
                    (joined || gather(views(panels@), j as int, big@, w, h, ratio).2) == gather(
                        cur,
                        i + 1,
                        cur[i as int].bare(),
                        w,
                        h,
                        ratio,
                    ).2,
                decreases panels@.len(), panels@.len() - j,
            {
                let ghost row = views(panels@);
                assert(row[j as int] == panels@[j as int]@);
                if panels[j].is_small(img_w, img_h, ratio) && panels[j].is_close(&big) {
                    big = big.merge(&panels[j]);
                    panels.remove(j);
                    assert(views(panels@) =~= row.remove(j as int));
                    joined = true;
                } else {
                    j += 1;
                }
            }
            let ghost gathered = views(panels@);
            proof {
                lemma_gather(cur, i + 1, cur[i as int].bare(), w, h, ratio);
            }
            panels.remove(i);
            assert(views(panels@) =~= gathered.remove(i as int));
            let ghost noted = views(added@);
            if joined && !big.is_small(img_w, img_h, ratio) {
                added.push(big);
                assert(views(added@) =~= noted.push(big@));
            }
            assert forall|k: int| 0 <= k < i implies !(#[trigger] views(panels@).take(
                i as int,
            )[k]).is_small(w, h, ratio) by {
                assert(views(panels@)[k] == gathered[k]);
                assert(gather(cur, i + 1, cur[i as int].bare(), w, h, ratio).0[k] == cur[k]);
                assert(cur.take(i as int)[k] == cur[k]);
            }
        }
    }
    let ghost kept = panels@;
    let ghost tail = added@;
    proof {
        lemma_regroup_none_small(input, 0, Seq::empty(), w, h, ratio);
    }
    panels.append(&mut added);
    assert(views(panels@) =~= views(kept) + views(tail));
}

} // verus!
