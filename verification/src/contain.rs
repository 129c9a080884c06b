//! Merging every panel that lies inside another into the panel around it.

use crate::panel::{Panel, PanelView, views};
use vstd::prelude::*;

verus! {

/// The list after panel `i` has taken in panel `j`: panel `i` becomes the box
/// around both and panel `j` leaves the list.
pub open spec fn absorb(s: Seq<PanelView>, i: int, j: int) -> Seq<PanelView> {
    s.update(i, s[i].merge(s[j])).remove(j)
}

/// Panel `i` looks at the panels from position `j` on and takes in each that
/// it contains; after taking one in it looks again at the same position.
/// Gives the list, the position to which panel `i` has moved, and whether
/// any panel was taken in.
pub open spec fn scan_row(s: Seq<PanelView>, i: int, j: int) -> (Seq<PanelView>, int, bool)
    decreases s.len(), s.len() - j,
{
    if !(0 <= i < s.len()) || j < 0 || j >= s.len() {
        (s, i, false)
    } else if i == j {
        scan_row(s, i, j + 1)
    } else if s[i].contains(s[j]) {
        let rest = scan_row(absorb(s, i, j), if j < i { i - 1 } else { i }, j);
        (rest.0, rest.1, true)
    } else {
        scan_row(s, i, j + 1)
    }
}

/// One pass: the panels from position `i` on each look at the whole list in
/// turn. Gives the list and whether any panel was taken in. The test on the
/// lengths always holds (`lemma_scan_row`); it is there to show that a pass ends.
pub open spec fn scan_pass(s: Seq<PanelView>, i: int) -> (Seq<PanelView>, bool)
    decreases s.len() - i,
{
    if i < 0 || i >= s.len() {
        (s, false)
    } else {
        let row = scan_row(s, i, 0);
        if 0 <= row.1 < row.0.len() && row.0.len() - row.1 <= s.len() - i {
            let rest = scan_pass(row.0, row.1 + 1);
            (rest.0, row.2 || rest.1)
        } else {
            (row.0, row.2)
        }
    }
}

/// The list after passes have been made until one took nothing in. A pass
/// that takes a panel in shortens the list (`lemma_scan_pass`), so the test on
/// the length always holds.
pub open spec fn contained_merged(s: Seq<PanelView>) -> Seq<PanelView>
    decreases s.len(),
{
    let pass = scan_pass(s, 0);
    if pass.1 && pass.0.len() < s.len() {
        contained_merged(pass.0)
    } else {
        pass.0
    }
}

/// Whether no panel of the list contains another.
pub open spec fn none_contained(s: Seq<PanelView>) -> bool {
    forall|a: int, b: int|
        0 <= a < s.len() && 0 <= b < s.len() && a != b ==> !(#[trigger] s[a]).contains(
            #[trigger] s[b],
        )
}

/// What one panel's look at the list does: the list gets shorter exactly when
/// something was taken in, the panel stays in it, and where nothing was taken
/// in the list is unchanged and the panel contains none of those looked at.
pub proof fn lemma_scan_row(s: Seq<PanelView>, i: int, j: int)
    requires
        0 <= i < s.len(),
        0 <= j <= s.len(),
    ensures
        scan_row(s, i, j).0.len() <= s.len(),
        0 <= scan_row(s, i, j).1 < scan_row(s, i, j).0.len(),
        scan_row(s, i, j).0.len() - scan_row(s, i, j).1 <= s.len() - i,
        scan_row(s, i, j).2 <==> scan_row(s, i, j).0.len() < s.len(),
        !scan_row(s, i, j).2 ==> scan_row(s, i, j).0 == s && scan_row(s, i, j).1 == i && forall|
            b: int,
        |
            j <= b < s.len() && b != i ==> !s[i].contains(#[trigger] s[b]),
    decreases s.len(), s.len() - j,
{
    if j >= s.len() {
    } else if i == j {
        lemma_scan_row(s, i, j + 1);
    } else if s[i].contains(s[j]) {
        lemma_scan_row(absorb(s, i, j), if j < i { i - 1 } else { i }, j);
    } else {
        lemma_scan_row(s, i, j + 1);
    }
}

/// What a pass does: the list gets shorter exactly when something was taken
/// in, and where nothing was taken in the list is unchanged and none of the
/// panels that looked contains another panel.
pub proof fn lemma_scan_pass(s: Seq<PanelView>, i: int)
    requires
        0 <= i <= s.len(),
    ensures
        scan_pass(s, i).0.len() <= s.len(),
        scan_pass(s, i).1 <==> scan_pass(s, i).0.len() < s.len(),
        !scan_pass(s, i).1 ==> scan_pass(s, i).0 == s && forall|a: int, b: int|
            i <= a < s.len() && 0 <= b < s.len() && a != b ==> !(#[trigger] s[a]).contains(
                #[trigger] s[b],
            ),
    decreases s.len() - i,
{
    if i < s.len() {
        lemma_scan_row(s, i, 0);
        let row = scan_row(s, i, 0);
        lemma_scan_pass(row.0, row.1 + 1);
    }
}

/// After the merging no panel contains another.
pub proof fn lemma_merged_none_contained(s: Seq<PanelView>)
    ensures
        none_contained(contained_merged(s)),
        contained_merged(s).len() <= s.len(),
    decreases s.len(),
{
    lemma_scan_pass(s, 0);
    let pass = scan_pass(s, 0);
    if pass.1 && pass.0.len() < s.len() {
        lemma_merged_none_contained(pass.0);
    }
}

/// Merges panels until none contains another. Each panel in turn looks at
/// all others from the first on; one that it contains is merged into it and
/// removed, and the look goes on at the same position. Passes are repeated
/// until one merges nothing.
pub fn merge_contained(panels: &mut Vec<Panel>)
    ensures
        views(final(panels)@) == contained_merged(views(old(panels)@)),
        none_contained(views(final(panels)@)),
        final(panels)@.len() <= old(panels)@.len(),
{
    let ghost input = views(panels@);
    loop
        invariant
            contained_merged(views(panels@)) == contained_merged(input),
        ensures
            views(panels@) == contained_merged(input),
        decreases panels@.len(),
    {
        let ghost start = views(panels@);
        let mut merged: bool = false;
        let mut i: usize = 0;
        while i < panels.len()
            invariant
                i <= panels@.len(),
                panels@.len() <= start.len(),
                merged ==> panels@.len() < start.len(),
                scan_pass(views(panels@), i as int).0 == scan_pass(start, 0).0,
                (merged || scan_pass(views(panels@), i as int).1) == scan_pass(start, 0).1,
            decreases panels@.len() - i,
        {
            let ghost row_start = views(panels@);
            let ghost i0 = i as int;
            let mut j: usize = 0;
            let mut row_merged: bool = false;
            while j < panels.len()
                invariant
                    i < panels@.len(),
                    j <= panels@.len(),
                    panels@.len() <= row_start.len(),
                    row_merged ==> panels@.len() < row_start.len(),
                    panels@.len() - i <= row_start.len() - i0,
                    scan_row(views(panels@), i as int, j as int).0 == scan_row(
                        row_start,
                        i0,
                        0,
                    ).0,
                    scan_row(views(panels@), i as int, j as int).1 == scan_row(
                        row_start,
                        i0,
                        0,
                    ).1,
                    (row_merged || scan_row(views(panels@), i as int, j as int).2) == scan_row(
                        row_start,
                        i0,
                        0,
                    ).2,
                decreases panels@.len(), panels@.len() - j,
            {
                let ghost cur = views(panels@);
                assert(cur[i as int] == panels@[i as int]@);
                assert(cur[j as int] == panels@[j as int]@);
                if i == j {
                    j += 1;
                } else if panels[i].contains(&panels[j]) {
                    let both = panels[i].merge(&panels[j]);
                    panels[i] = both;
                    panels.remove(j);
                    assert(views(panels@) =~= absorb(cur, i as int, j as int));
                    row_merged = true;
                    if j < i {
                        i -= 1;
                    }
                } else {
                    j += 1;
                }
            }
            proof {
                lemma_scan_row(row_start, i0, 0);
            }
            if row_merged {
                merged = true;
            }
            i += 1;
        }
        proof {
            lemma_scan_pass(start, 0);
        }
        if !merged {
            break ;
        }
    }
    proof {
        lemma_merged_none_contained(input);
    }
}

} // verus!
