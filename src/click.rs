use crate::model::{offset, parts_view, total_len, LinePart, SegmentView};
use vstd::prelude::*;

verus! {

/// The first segment from `i` on whose columns hold `c`, where segment `i`
/// starts at column `acc`.
pub open spec fn hit_from(parts: Seq<SegmentView>, i: int, acc: int, c: int) -> Option<int>
    decreases parts.len() - i,
{
    if i < 0 || i >= parts.len() {
        None
    } else if acc <= c < acc + parts[i].len {
        Some(i)
    } else {
        hit_from(parts, i + 1, acc + parts[i].len, c)
    }
}

/// The segment whose columns hold column `c`, if any.
pub open spec fn clicked_at(parts: Seq<SegmentView>, c: int) -> Option<int> {
    hit_from(parts, 0, 0, c)
}

/// The 1-based tab that a click on column `c` switches to: the tab of the
/// clicked segment, unless there is none or it is the active tab.
pub open spec fn focus_target(parts: Seq<SegmentView>, active: nat, c: int) -> Option<usize> {
    match clicked_at(parts, c) {
        Some(k) => match parts[k].tab_index {
            Some(t) => if t + 1 == active {
                None
            } else {
                Some((t + 1) as usize)
            },
            None => None,
        },
        None => None,
    }
}

/// Every tab segment names a tab whose 1-based number fits in a `usize`.
pub open spec fn tab_numbers_fit(parts: Seq<SegmentView>) -> bool {
    forall|i: int|
        0 <= i < parts.len() && (#[trigger] parts[i].tab_index) is Some
            ==> parts[i].tab_index->0 < usize::MAX
}

/// Finds the segment under column `mouse_click_col`.
pub fn get_clicked_line_part(tab_line: &[LinePart], mouse_click_col: usize) -> (r: Option<
    &LinePart,
>)
    ensures
        match clicked_at(parts_view(tab_line@), mouse_click_col as int) {
            Some(k) => r is Some && r->0@ == tab_line@[k]@,
            None => r is None,
        },
{
    let ghost parts = parts_view(tab_line@);
    let mut len: usize = 0;
    let mut i: usize = 0;
    while i < tab_line.len()
        invariant
            i <= tab_line@.len(),
            parts == parts_view(tab_line@),
            len <= mouse_click_col,
            clicked_at(parts, mouse_click_col as int) == hit_from(
                parts,
                i as int,
                len as int,
                mouse_click_col as int,
            ),
        decreases tab_line@.len() - i,
    {
        let part = &tab_line[i];
        assert(parts[i as int] == part@);
        if mouse_click_col - len < part.len {
            return Some(part);
        }
        len = len + part.len;
        i = i + 1;
    }
    None
}

/// The 1-based tab that a click on column `mouse_click_col` switches to, where
/// `active_tab_idx` is the 1-based active tab: none for a click beside the
/// tabs or on the active one.
pub fn get_tab_to_focus(tab_line: &[LinePart], active_tab_idx: usize, mouse_click_col: usize) -> (r:
    Option<usize>)
    requires
        tab_numbers_fit(parts_view(tab_line@)),
    ensures
        r == focus_target(parts_view(tab_line@), active_tab_idx as nat, mouse_click_col as int),
        forall|i: int|
            0 <= i < tab_line@.len() && offset(parts_view(tab_line@), i) <= mouse_click_col < offset(
                parts_view(tab_line@),
                i,
            ) + (#[trigger] tab_line@[i]).len ==> r == match tab_line@[i].tab_index {
                Some(t) => if t + 1 == active_tab_idx {
                    None
                } else {
                    Some((t + 1) as usize)
                },
                None => None::<usize>,
            },
        mouse_click_col >= total_len(parts_view(tab_line@)) ==> r is None,
{
    proof {
        lemma_focus_on_line(tab_line@, active_tab_idx, mouse_click_col);
    }
    let clicked = get_clicked_line_part(tab_line, mouse_click_col);
    let part = match clicked {
        Some(p) => p,
        None => return None,
    };
    let ghost k = clicked_at(parts_view(tab_line@), mouse_click_col as int)->0;
    proof {
        lemma_hit_in_range(parts_view(tab_line@), 0, 0, mouse_click_col as int);
    }
    assert(parts_view(tab_line@)[k] == tab_line@[k]@);
    let clicked_tab_idx = match part.tab_index {
        Some(t) => t,
        None => return None,
    };
    let clicked_tab_idx = clicked_tab_idx + 1;
    if clicked_tab_idx != active_tab_idx {
        return Some(clicked_tab_idx);
    }
    None
}

/// A segment that is hit is one of the segments searched.
proof fn lemma_hit_in_range(parts: Seq<SegmentView>, i: int, acc: int, c: int)
    ensures
        hit_from(parts, i, acc, c) matches Some(k) ==> 0 <= i <= k < parts.len(),
    decreases parts.len() - i,
{
    if 0 <= i < parts.len() && !(acc <= c < acc + parts[i].len) {
        lemma_hit_in_range(parts, i + 1, acc + parts[i].len, c);
    }
}

/// The click walk over a line of segments agrees with its layout: a column
/// inside a tab's segment switches to that tab unless it is the active one,
/// and a column past the end switches nothing.
pub proof fn lemma_focus_on_line(line: Seq<LinePart>, active: usize, c: usize)
    ensures
        forall|i: int|
            0 <= i < line.len() && offset(parts_view(line), i) <= c < offset(parts_view(line), i)
                + (#[trigger] line[i]).len ==> focus_target(parts_view(line), active as nat, c as int)
                == match line[i].tab_index {
                Some(t) => if t + 1 == active {
                    None
                } else {
                    Some((t + 1) as usize)
                },
                None => None::<usize>,
            },
        c >= total_len(parts_view(line)) ==> focus_target(parts_view(line), active as nat, c as int) is None,
{
    let parts = parts_view(line);
    assert forall|i: int|
        0 <= i < line.len() && offset(parts, i) <= c < offset(parts, i) + (#[trigger] line[i]).len
            implies focus_target(parts, active as nat, c as int) == match line[i].tab_index {
            Some(t) => if t + 1 == active {
                None
            } else {
                Some((t + 1) as usize)
            },
            None => None::<usize>,
        } by {
        assert(parts[i] == line[i]@);
        lemma_click_on_segment(parts, active as nat, i, c as int);
    }
    if c >= total_len(parts) {
        lemma_click_past_end(parts, active as nat, c as int);
    }
}

/// Segment `i + 1` starts where segment `i` ends.
pub proof fn lemma_offset_next(parts: Seq<SegmentView>, i: int)
    requires
        0 <= i < parts.len(),
    ensures
        offset(parts, i + 1) == offset(parts, i) + parts[i].len,
{
    assert(parts.subrange(0, i + 1).drop_last() =~= parts.subrange(0, i));
}

/// Segments start in order.
pub proof fn lemma_offset_mono(parts: Seq<SegmentView>, i: int, j: int)
    requires
        0 <= i <= j <= parts.len(),
    ensures
        offset(parts, i) <= offset(parts, j),
    decreases j - i,
{
    if i < j {
        lemma_offset_next(parts, j - 1);
        lemma_offset_mono(parts, i, j - 1);
    }
}

proof fn lemma_hit_inside(parts: Seq<SegmentView>, i: int, k: int, c: int)
    requires
        0 <= i <= k < parts.len(),
        offset(parts, k) <= c < offset(parts, k) + parts[k].len,
    ensures
        hit_from(parts, i, offset(parts, i) as int, c) == Some(k),
    decreases k - i,
{
    if i < k {
        lemma_offset_next(parts, i);
        lemma_offset_mono(parts, i + 1, k);
        lemma_hit_inside(parts, i + 1, k, c);
    }
}

proof fn lemma_hit_past_end(parts: Seq<SegmentView>, i: int, c: int)
    requires
        0 <= i <= parts.len(),
        c >= total_len(parts),
    ensures
        hit_from(parts, i, offset(parts, i) as int, c) is None,
    decreases parts.len() - i,
{
    if i < parts.len() {
        lemma_offset_next(parts, i);
        lemma_offset_mono(parts, i + 1, parts.len() as int);
        assert(parts.subrange(0, parts.len() as int) =~= parts);
        lemma_hit_past_end(parts, i + 1, c);
    }
}

/// A click on a column inside a segment hits that segment, and a click on a
/// tab's segment switches to that tab unless it is the active one.
pub proof fn lemma_click_on_segment(parts: Seq<SegmentView>, active: nat, k: int, c: int)
    requires
        0 <= k < parts.len(),
        offset(parts, k) <= c < offset(parts, k) + parts[k].len,
    ensures
        clicked_at(parts, c) == Some(k),
        focus_target(parts, active, c) == match parts[k].tab_index {
            Some(t) => if t + 1 == active {
                None
            } else {
                Some((t + 1) as usize)
            },
            None => None::<usize>,
        },
{
    assert(parts.subrange(0, 0) =~= Seq::<SegmentView>::empty());
    lemma_hit_inside(parts, 0, k, c);
}

/// A click past the end of the line hits no segment and switches no tab.
pub proof fn lemma_click_past_end(parts: Seq<SegmentView>, active: nat, c: int)
    requires
        c >= total_len(parts),
    ensures
        clicked_at(parts, c) is None,
        focus_target(parts, active, c) is None,
{
    assert(parts.subrange(0, 0) =~= Seq::<SegmentView>::empty());
    lemma_hit_past_end(parts, 0, c);
}

} // verus!
