use crate::config::{mode_index, UserConfiguration};
use crate::model::{line_text, parts_view, total_len, InputMode, LinePart, PaletteColor, SegmentView};
use crate::paint::{paint_bold, painted_bold};
use crate::text::{spaces, spaces_of};
use vstd::prelude::*;
use vstd::string::*;

verus! {

/// Which segments a fitted line keeps: the session label, the directory
/// label, the mode badge, and the tabs at positions `lo..hi`.
#[derive(Clone, Copy, Debug)]
pub struct LinePlan {
    pub session: bool,
    pub directory: bool,
    pub badge: bool,
    pub lo: usize,
    pub hi: usize,
}

/// The session label's unstyled text.
pub open spec fn session_text(name: Seq<char>) -> Seq<char> {
    seq![' '] + name + seq![' ']
}

/// The directory label's unstyled text.
pub open spec fn directory_text(dir: Seq<char>) -> Seq<char> {
    dir + seq![' ']
}

/// The mode badge's unstyled text.
pub open spec fn badge_text(label: Seq<char>) -> Seq<char> {
    seq![' '] + label + seq![' ']
}

pub open spec fn session_segment(name: Seq<char>, config: UserConfiguration) -> SegmentView {
    SegmentView {
        text: painted_bold(config.color_session_name, config.color_bg, session_text(name)),
        len: session_text(name).len(),
        tab_index: None,
    }
}

pub open spec fn directory_segment(dir: Seq<char>, config: UserConfiguration) -> SegmentView {
    SegmentView {
        text: painted_bold(config.color_session_directory, config.color_bg, directory_text(dir)),
        len: directory_text(dir).len(),
        tab_index: None,
    }
}

/// Color of the mode badge: one for the default mode, one for all others.
pub open spec fn mode_color(mode: InputMode, config: UserConfiguration) -> PaletteColor {
    if mode == InputMode::Normal {
        config.color_normal_mode
    } else {
        config.color_other_modes
    }
}

pub open spec fn badge_segment(
    label: Seq<char>,
    mode: InputMode,
    config: UserConfiguration,
) -> SegmentView {
    SegmentView {
        text: painted_bold(mode_color(mode, config), config.color_bg, badge_text(label)),
        len: badge_text(label).len(),
        tab_index: None,
    }
}

/// The blank run that pushes the mode badge to the right end of the line.
pub open spec fn spacer_segment(n: nat, config: UserConfiguration) -> SegmentView {
    SegmentView {
        text: painted_bold(config.color_others, config.color_bg, spaces_of(n)),
        len: n,
        tab_index: None,
    }
}

/// Columns taken by the segments that `p` keeps, where the session label,
/// directory label and mode badge take `sw`, `dw` and `bw` columns.
pub open spec fn plan_width(p: LinePlan, sw: nat, dw: nat, bw: nat, tabs: Seq<SegmentView>) -> nat {
    decoration_width(p, sw, dw, bw) + total_len(tabs.subrange(p.lo as int, p.hi as int))
}

/// Columns taken by the labels and the badge that `p` keeps.
pub open spec fn decoration_width(p: LinePlan, sw: nat, dw: nat, bw: nat) -> nat {
    (if p.session { sw } else { 0 }) + (if p.directory { dw } else { 0 }) + (if p.badge {
        bw
    } else {
        0
    })
}

/// Number of segments that `p` keeps.
pub open spec fn plan_size(p: LinePlan) -> int {
    (if p.session { 1int } else { 0 }) + (if p.directory { 1int } else { 0 }) + (if p.badge {
        1int
    } else {
        0
    }) + (p.hi - p.lo)
}

/// The tab that a line keeps longest: the active one when `active` is a
/// valid 1-based index, else the first.
pub open spec fn anchor_of(active: nat, n: nat) -> int {
    if 1 <= active <= n {
        active - 1
    } else {
        0
    }
}

/// One step of fitting: drop the directory label, else the session label,
/// else the mode badge, else the tab at the end of the window that lies
/// farther from the anchor, else the last tab.
pub open spec fn shrink(p: LinePlan, anchor: int) -> LinePlan {
    if p.directory {
        LinePlan { directory: false, ..p }
    } else if p.session {
        LinePlan { session: false, ..p }
    } else if p.badge {
        LinePlan { badge: false, ..p }
    } else if p.hi - p.lo > 1 {
        if anchor - p.lo > p.hi - 1 - anchor {
            LinePlan { lo: (p.lo + 1) as usize, ..p }
        } else {
            LinePlan { hi: (p.hi - 1) as usize, ..p }
        }
    } else {
        LinePlan { hi: p.lo, ..p }
    }
}

/// Shrinks `p` until it fits in `max` columns.
pub open spec fn fit(
    p: LinePlan,
    anchor: int,
    sw: nat,
    dw: nat,
    bw: nat,
    tabs: Seq<SegmentView>,
    max: nat,
) -> LinePlan
    decreases plan_size(p),
{
    if p.lo > p.hi || p.hi > tabs.len() || plan_width(p, sw, dw, bw, tabs) <= max || plan_size(p)
        <= 0 {
        p
    } else {
        fit(shrink(p, anchor), anchor, sw, dw, bw, tabs, max)
    }
}

/// The plan before fitting: everything that there is to show.
pub open spec fn initial_plan(
    session: Option<Seq<char>>,
    dir: Seq<char>,
    label: Seq<char>,
    n: nat,
    config: UserConfiguration,
) -> LinePlan {
    LinePlan {
        session: session is Some,
        directory: session is Some && config.display_session_directory && dir.len() > 0,
        badge: label.len() > 0,
        lo: 0,
        hi: n as usize,
    }
}

/// The segments that `p` keeps, in order, with a spacer before the badge that
/// fills the line up to `max` columns.
pub open spec fn plan_segments(
    p: LinePlan,
    session: Seq<char>,
    dir: Seq<char>,
    label: Seq<char>,
    tabs: Seq<SegmentView>,
    config: UserConfiguration,
    mode: InputMode,
    max: nat,
) -> Seq<SegmentView> {
    let gap = max - plan_width(
        p,
        session_text(session).len(),
        directory_text(dir).len(),
        badge_text(label).len(),
        tabs,
    );
    (if p.session {
        seq![session_segment(session, config)]
    } else {
        Seq::empty()
    }) + (if p.directory {
        seq![directory_segment(dir, config)]
    } else {
        Seq::empty()
    }) + tabs.subrange(p.lo as int, p.hi as int) + (if p.badge {
        (if gap > 0 {
            seq![spacer_segment(gap as nat, config)]
        } else {
            Seq::empty()
        }) + seq![badge_segment(label, mode, config)]
    } else {
        Seq::empty()
    })
}

/// The plan of the composed line.
pub open spec fn line_plan(
    session: Option<Seq<char>>,
    tabs: Seq<SegmentView>,
    active: nat,
    max: nat,
    config: UserConfiguration,
    mode: InputMode,
    dir: Seq<char>,
) -> LinePlan {
    let name = match session {
        Some(s) => s,
        None => Seq::empty(),
    };
    let label = config.mode_label(mode);
    fit(
        initial_plan(session, dir, label, tabs.len(), config),
        anchor_of(active, tabs.len()),
        session_text(name).len(),
        directory_text(dir).len(),
        badge_text(label).len(),
        tabs,
        max,
    )
}

/// The composed line: nothing where there are no tabs, else the segments of
/// the fitted plan.
pub open spec fn line_spec(
    session: Option<Seq<char>>,
    tabs: Seq<SegmentView>,
    active: nat,
    max: nat,
    config: UserConfiguration,
    mode: InputMode,
    dir: Seq<char>,
) -> Seq<SegmentView> {
    if tabs.len() == 0 {
        Seq::empty()
    } else {
        let name = match session {
            Some(s) => s,
            None => Seq::empty(),
        };
        plan_segments(
            line_plan(session, tabs, active, max, config, mode, dir),
            name,
            dir,
            config.mode_label(mode),
            tabs,
            config,
            mode,
            max,
        )
    }
}


/// Columns that a sequence of segments takes add up over concatenation.
pub proof fn lemma_total_len_concat(a: Seq<SegmentView>, b: Seq<SegmentView>)
    ensures
        total_len(a + b) == total_len(a) + total_len(b),
    decreases b.len(),
{
    if b.len() > 0 {
        assert((a + b).drop_last() =~= a + b.drop_last());
        lemma_total_len_concat(a, b.drop_last());
    }
}

/// A line of `n` segments that takes no columns has no segment of positive
/// width.
pub proof fn lemma_total_len_zero(parts: Seq<SegmentView>)
    requires
        total_len(parts) == 0,
        forall|i: int| 0 <= i < parts.len() ==> #[trigger] parts[i].len > 0,
    ensures
        parts.len() == 0,
{
    if parts.len() > 0 {
        assert(parts.last().len > 0);
    }
}

proof fn lemma_shrink_window(p: LinePlan, anchor: int)
    requires
        p.lo <= p.hi,
        plan_size(p) > 0,
    ensures
        shrink(p, anchor).lo <= shrink(p, anchor).hi <= p.hi,
        p.lo <= shrink(p, anchor).lo,
        plan_size(shrink(p, anchor)) < plan_size(p),
{
}

/// A fitted plan keeps its window inside the tabs and fits in `max` columns.
proof fn lemma_fit_fits(
    p: LinePlan,
    anchor: int,
    sw: nat,
    dw: nat,
    bw: nat,
    tabs: Seq<SegmentView>,
    max: nat,
)
    requires
        p.lo <= p.hi <= tabs.len(),
    ensures
        ({
            let f = fit(p, anchor, sw, dw, bw, tabs, max);
            &&& f.lo <= f.hi <= tabs.len()
            &&& plan_width(f, sw, dw, bw, tabs) <= max
        }),
    decreases plan_size(p),
{
    if plan_width(p, sw, dw, bw, tabs) <= max {
    } else if plan_size(p) <= 0 {
        assert(tabs.subrange(p.lo as int, p.hi as int).len() == 0);
    } else {
        lemma_shrink_window(p, anchor);
        lemma_fit_fits(shrink(p, anchor), anchor, sw, dw, bw, tabs, max);
    }
}

/// Where every tab fits, fitting drops no tab.
proof fn lemma_fit_keeps_tabs(
    p: LinePlan,
    anchor: int,
    sw: nat,
    dw: nat,
    bw: nat,
    tabs: Seq<SegmentView>,
    max: nat,
)
    requires
        p.lo == 0,
        p.hi == tabs.len(),
        total_len(tabs) <= max,
    ensures
        fit(p, anchor, sw, dw, bw, tabs, max).lo == 0,
        fit(p, anchor, sw, dw, bw, tabs, max).hi == tabs.len(),
    decreases plan_size(p),
{
    assert(tabs.subrange(0, tabs.len() as int) =~= tabs);
    if plan_width(p, sw, dw, bw, tabs) > max && plan_size(p) > 0 {
        assert(p.directory || p.session || p.badge);
        lemma_fit_keeps_tabs(shrink(p, anchor), anchor, sw, dw, bw, tabs, max);
    }
}

/// `room - (w + extra)` where that is not negative.
fn take_room(room: usize, w: usize, extra: usize) -> (r: Option<usize>)
    ensures
        r == (if w + extra <= room {
            Some((room - w - extra) as usize)
        } else {
            None::<usize>
        }),
{
    if w <= room && extra <= room - w {
        Some(room - w - extra)
    } else {
        None
    }
}

/// Columns left of `max` once the plan's segments are placed, if they fit.
pub open spec fn plan_room(
    p: LinePlan,
    sw: nat,
    dw: nat,
    bw: nat,
    tabs: Seq<SegmentView>,
    max: nat,
) -> Option<usize> {
    if plan_width(p, sw, dw, bw, tabs) <= max {
        Some((max - plan_width(p, sw, dw, bw, tabs)) as usize)
    } else {
        None
    }
}

fn room_left(
    p: LinePlan,
    name_len: usize,
    dir_len: usize,
    label_len: usize,
    tabs: &Vec<LinePart>,
    max: usize,
) -> (r: Option<usize>)
    requires
        p.lo <= p.hi <= tabs@.len(),
    ensures
        r == plan_room(
            p,
            (name_len + 2) as nat,
            (dir_len + 1) as nat,
            (label_len + 2) as nat,
            parts_view(tabs@),
            max as nat,
        ),
{
    let ghost tv = parts_view(tabs@);
    let ghost deco: int = decoration_width(p, (name_len + 2) as nat, (dir_len + 1) as nat, (label_len + 2) as nat) as int;
    let mut room: usize = max;
    let ghost mut used: int = 0;
    if p.session {
        match take_room(room, name_len, 2) {
            Some(r) => {
                room = r;
                proof { used = used + name_len + 2; }
            },
            None => {
                return None;
            },
        }
    }
    if p.directory {
        match take_room(room, dir_len, 1) {
            Some(r) => {
                room = r;
                proof { used = used + dir_len + 1; }
            },
            None => {
                return None;
            },
        }
    }
    if p.badge {
        match take_room(room, label_len, 2) {
            Some(r) => {
                room = r;
                proof { used = used + label_len + 2; }
            },
            None => {
                return None;
            },
        }
    }
    assert(used == deco);
    let mut i: usize = p.lo;
    while i < p.hi
        invariant
            p.lo <= i <= p.hi <= tabs@.len(),
            tv == parts_view(tabs@),
            deco == decoration_width(p, (name_len + 2) as nat, (dir_len + 1) as nat, (label_len + 2) as nat),
            room as int == max - deco - total_len(tv.subrange(p.lo as int, i as int)),
        decreases p.hi - i,
    {
        assert(tv.subrange(p.lo as int, i + 1).drop_last() =~= tv.subrange(p.lo as int, i as int));
        assert(tv[i as int].len == tabs[i as int].len);
        if tabs[i].len <= room {
            room = room - tabs[i].len;
            i = i + 1;
        } else {
            proof {
                let run = tv.subrange(p.lo as int, i + 1);
                assert(run.last() == tv[i as int]);
                assert(total_len(run) == total_len(run.drop_last()) + run.last().len);
                lemma_total_len_split(tv, p.lo as int, i + 1, p.hi as int);
            }
            return None;
        }
    }
    Some(room)
}

/// Splitting a run of segments in two splits its width.
proof fn lemma_total_len_split(parts: Seq<SegmentView>, lo: int, mid: int, hi: int)
    requires
        0 <= lo <= mid <= hi <= parts.len(),
    ensures
        total_len(parts.subrange(lo, hi)) == total_len(parts.subrange(lo, mid)) + total_len(
            parts.subrange(mid, hi),
        ),
{
    assert(parts.subrange(lo, hi) =~= parts.subrange(lo, mid) + parts.subrange(mid, hi));
    lemma_total_len_concat(parts.subrange(lo, mid), parts.subrange(mid, hi));
}

fn shrink_plan(p: LinePlan, anchor: usize) -> (r: LinePlan)
    requires
        p.lo <= p.hi,
    ensures
        r == shrink(p, anchor as int),
{
    if p.directory {
        LinePlan { directory: false, ..p }
    } else if p.session {
        LinePlan { session: false, ..p }
    } else if p.badge {
        LinePlan { badge: false, ..p }
    } else if p.hi - p.lo > 1 {
        if 2 * (anchor as u128) + 1 > (p.hi as u128) + (p.lo as u128) {
            LinePlan { lo: p.lo + 1, ..p }
        } else {
            LinePlan { hi: p.hi - 1, ..p }
        }
    } else {
        LinePlan { hi: p.lo, ..p }
    }
}


/// The view of an optional name.
pub open spec fn name_view(name: Option<String>) -> Option<Seq<char>> {
    match name {
        Some(s) => Some(s@),
        None => None,
    }
}

/// A copy of `p`, field by field.
fn copy_part(p: &LinePart) -> (r: LinePart)
    ensures
        r@ == p@,
{
    LinePart { part: p.part.clone(), len: p.len, tab_index: p.tab_index }
}

proof fn lemma_parts_view_push(parts: Seq<LinePart>, x: LinePart)
    ensures
        parts_view(parts.push(x)) == parts_view(parts).push(x@),
{
    assert(parts_view(parts.push(x)) =~= parts_view(parts).push(x@));
}

/// Shrinks `p` until it fits in `max` columns; returns the fitted plan and
/// the columns it leaves free.
fn fit_plan(
    p: LinePlan,
    anchor: usize,
    name_len: usize,
    dir_len: usize,
    label_len: usize,
    tabs: &Vec<LinePart>,
    max: usize,
) -> (r: (LinePlan, usize))
    requires
        p.lo <= p.hi <= tabs@.len(),
    ensures
        ({
            let sw = (name_len + 2) as nat;
            let dw = (dir_len + 1) as nat;
            let bw = (label_len + 2) as nat;
            let f = fit(p, anchor as int, sw, dw, bw, parts_view(tabs@), max as nat);
            &&& r.0 == f
            &&& plan_room(f, sw, dw, bw, parts_view(tabs@), max as nat) == Some(r.1)
        }),
{
    let ghost sw = (name_len + 2) as nat;
    let ghost dw = (dir_len + 1) as nat;
    let ghost bw = (label_len + 2) as nat;
    let ghost tv = parts_view(tabs@);
    let ghost target = fit(p, anchor as int, sw, dw, bw, tv, max as nat);
    let mut p = p;
    let mut room = room_left(p, name_len, dir_len, label_len, tabs, max);
    while room.is_none()
        invariant
            p.lo <= p.hi <= tabs@.len(),
            sw == (name_len + 2) as nat,
            dw == (dir_len + 1) as nat,
            bw == (label_len + 2) as nat,
            tv == parts_view(tabs@),
            fit(p, anchor as int, sw, dw, bw, tv, max as nat) == target,
            room == plan_room(p, sw, dw, bw, tv, max as nat),
        decreases plan_size(p),
    {
        proof {
            if plan_size(p) <= 0 {
                assert(tv.subrange(p.lo as int, p.hi as int).len() == 0);
            }
            lemma_shrink_window(p, anchor as int);
        }
        p = shrink_plan(p, anchor);
        room = room_left(p, name_len, dir_len, label_len, tabs, max);
    }
    match room {
        Some(g) => (p, g),
        None => (p, 0),
    }
}

/// Appends the segments at positions `lo..hi` of `tabs` to `out`.
fn push_tabs(out: &mut Vec<LinePart>, tabs: &Vec<LinePart>, lo: usize, hi: usize)
    requires
        lo <= hi <= tabs@.len(),
    ensures
        parts_view(final(out)@) == parts_view(old(out)@) + parts_view(tabs@).subrange(
            lo as int,
            hi as int,
        ),
{
    let ghost start = parts_view(out@);
    let ghost tv = parts_view(tabs@);
    let mut i: usize = lo;
    while i < hi
        invariant
            lo <= i <= hi <= tabs@.len(),
            tv == parts_view(tabs@),
            parts_view(out@) == start + tv.subrange(lo as int, i as int),
        decreases hi - i,
    {
        let part = copy_part(&tabs[i]);
        proof {
            lemma_parts_view_push(out@, part);
        }
        out.push(part);
        assert(tv[i as int] == part@);
        i = i + 1;
        assert(parts_view(out@) =~= start + tv.subrange(lo as int, i as int));
    }
}

/// `text` painted in bold as one segment without a tab.
fn decoration(fg: PaletteColor, bg: PaletteColor, text: String) -> (r: LinePart)
    ensures
        r@ == (SegmentView { text: painted_bold(fg, bg, text@), len: text@.len(), tab_index: None }),
{
    let len = text.as_str().unicode_len();
    LinePart { part: paint_bold(fg, bg, text), len, tab_index: None }
}

/// `inner` with one space on each side.
fn padded(inner: &String) -> (r: String)
    ensures
        r@ == seq![' '] + inner@ + seq![' '],
{
    let space = " ";
    proof {
        reveal_strlit(" ");
    }
    let mut t = String::new();
    t.append(space);
    t.append(inner.as_str());
    t.append(space);
    assert(t@ =~= seq![' '] + inner@ + seq![' ']);
    t
}

/// The segments of the fitted plan `p`, which leaves `gap` columns free.
fn assemble(
    p: LinePlan,
    gap: usize,
    name: String,
    session_directory: String,
    label: &String,
    tabs: &Vec<LinePart>,
    config: &UserConfiguration,
    mode: InputMode,
    max_columns: usize,
) -> (r: Vec<LinePart>)
    requires
        p.lo <= p.hi <= tabs@.len(),
        plan_room(
            p,
            session_text(name@).len(),
            directory_text(session_directory@).len(),
            badge_text(label@).len(),
            parts_view(tabs@),
            max_columns as nat,
        ) == Some(gap),
    ensures
        parts_view(r@) == plan_segments(
            p,
            name@,
            session_directory@,
            label@,
            parts_view(tabs@),
            *config,
            mode,
            max_columns as nat,
        ),
{
    let ghost tv = parts_view(tabs@);
    let ghost dir = session_directory@;
    let mut out: Vec<LinePart> = Vec::new();
    let ghost mut left: Seq<SegmentView> = Seq::empty();
    if p.session {
        let part = decoration(config.color_session_name, config.color_bg, padded(&name));
        proof {
            lemma_parts_view_push(out@, part);
            left = left.push(session_segment(name@, *config));
        }
        out.push(part);
    }
    if p.directory {
        let mut text = session_directory;
        let space = " ";
        proof {
            reveal_strlit(" ");
        }
        text.append(space);
        assert(text@ =~= directory_text(dir));
        let part = decoration(config.color_session_directory, config.color_bg, text);
        proof {
            lemma_parts_view_push(out@, part);
            left = left.push(directory_segment(dir, *config));
        }
        out.push(part);
    }
    assert(parts_view(out@) =~= left);
    push_tabs(&mut out, tabs, p.lo, p.hi);
    let ghost middle = parts_view(out@);
    let ghost mut right: Seq<SegmentView> = Seq::empty();
    if p.badge {
        if gap > 0 {
            let part = decoration(config.color_others, config.color_bg, spaces(gap));
            proof {
                lemma_parts_view_push(out@, part);
                right = right.push(spacer_segment(gap as nat, *config));
            }
            out.push(part);
        }
        let part = decoration(mode_color_of(mode, config), config.color_bg, padded(label));
        proof {
            lemma_parts_view_push(out@, part);
            right = right.push(badge_segment(label@, mode, *config));
        }
        out.push(part);
    }
    assert(parts_view(out@) =~= middle + right);
    assert(plan_segments(p, name@, dir, label@, tv, *config, mode, max_columns as nat) =~= left
        + tv.subrange(p.lo as int, p.hi as int) + right);
    out
}

/// Composes the line: the session label and the directory label, the tab
/// segments, and the mode badge pushed to the right end, dropping segments
/// until all fit in `max_columns` columns. The directory label goes first,
/// then the session label, then the badge, then the tabs farthest from the
/// active one (`active_tab_idx` is 1-based), and the active tab last.
pub fn tab_line(
    session_name: Option<String>,
    tabs: Vec<LinePart>,
    active_tab_idx: usize,
    max_columns: usize,
    config: &UserConfiguration,
    mode: InputMode,
    session_directory: String,
) -> (r: Vec<LinePart>)
    requires
        config.wf(),
    ensures
        parts_view(r@) == line_spec(
            name_view(session_name),
            parts_view(tabs@),
            active_tab_idx as nat,
            max_columns as nat,
            *config,
            mode,
            session_directory@,
        ),
        total_len(parts_view(r@)) <= max_columns,
        shows_active_tab(parts_view(r@), parts_view(tabs@), active_tab_idx as nat, max_columns as nat),
        max_columns == 0 && all_take_columns(parts_view(tabs@)) ==> r@.len() == 0,
        keeps_active(parts_view(r@), parts_view(tabs@), active_tab_idx as nat),
        indexes_ascending(parts_view(tabs@)) ==> indexes_ascending(parts_view(r@)),
        indexes_increasing(parts_view(tabs@)) ==> indexes_increasing(parts_view(r@)),
{
    let ghost session = name_view(session_name);
    let ghost tv = parts_view(tabs@);
    let ghost dir = session_directory@;
    let n = tabs.len();
    if n == 0 {
        return Vec::new();
    }
    let anchor: usize = if 1 <= active_tab_idx && active_tab_idx <= n {
        active_tab_idx - 1
    } else {
        0
    };
    let label: &String = &config.mode_display[mode_index(mode)];
    let has_session = session_name.is_some();
    let name: String = match session_name {
        Some(s) => s,
        None => String::new(),
    };
    let name_len = name.as_str().unicode_len();
    let dir_len = session_directory.as_str().unicode_len();
    let label_len = label.as_str().unicode_len();
    let ghost sw: nat = (name_len + 2) as nat;
    let ghost dw: nat = (dir_len + 1) as nat;
    let ghost bw: nat = (label_len + 2) as nat;
    assert(label@ == config.mode_label(mode));
    assert(session_text(name@).len() == sw);
    assert(directory_text(dir).len() == dw);
    assert(badge_text(label@).len() == bw);
    let p0 = LinePlan {
        session: has_session,
        directory: has_session && config.display_session_directory && dir_len > 0,
        badge: label_len > 0,
        lo: 0,
        hi: n,
    };
    assert(p0 == initial_plan(session, dir, label@, tv.len(), *config));
    let (p, gap) = fit_plan(p0, anchor, name_len, dir_len, label_len, &tabs, max_columns);
    proof {
        lemma_fit_fits(p0, anchor as int, sw, dw, bw, tv, max_columns as nat);
    }
    let out = assemble(p, gap, name, session_directory, label, &tabs, config, mode, max_columns);
    proof {
        if !has_session {
            assert(name@ =~= Seq::<char>::empty());
        }
        lemma_line_spec_laws(session, tv, active_tab_idx as nat, max_columns as nat, *config, mode, dir);
    }
    out
}

/// Every segment takes at least one column.
pub open spec fn all_take_columns(parts: Seq<SegmentView>) -> bool {
    forall|i: int| 0 <= i < parts.len() ==> #[trigger] parts[i].len > 0
}

/// Where there are tabs, `active` names one of them, and all of them fit in
/// `max` columns, the line holds a segment of the active tab.
pub open spec fn shows_active_tab(line: Seq<SegmentView>, tabs: Seq<SegmentView>, active: nat, max: nat) -> bool {
    tabs.len() > 0 && 1 <= active <= tabs.len() && total_len(tabs) <= max ==> exists|k: int|
        0 <= k < line.len() && #[trigger] line[k].tab_index == tabs[active - 1].tab_index
}

/// Where `active` names a tab and the line shows any tab, it shows the
/// active one.
pub open spec fn keeps_active(line: Seq<SegmentView>, tabs: Seq<SegmentView>, active: nat) -> bool {
    1 <= active <= tabs.len() && (exists|k: int| 0 <= k < line.len() && (#[trigger] line[k]).tab_index is Some)
        ==> exists|k: int| 0 <= k < line.len() && #[trigger] line[k] == tabs[active - 1]
}

/// The tab indexes of `parts` never decrease.
pub open spec fn indexes_ascending(parts: Seq<SegmentView>) -> bool {
    forall|k: int, l: int|
        0 <= k < l < parts.len() && (#[trigger] parts[k]).tab_index is Some && (#[trigger] parts[l]).tab_index is Some
            ==> parts[k].tab_index->0 <= parts[l].tab_index->0
}

/// The tab indexes of `parts` strictly increase.
pub open spec fn indexes_increasing(parts: Seq<SegmentView>) -> bool {
    forall|k: int, l: int|
        0 <= k < l < parts.len() && (#[trigger] parts[k]).tab_index is Some && (#[trigger] parts[l]).tab_index is Some
            ==> parts[k].tab_index->0 < parts[l].tab_index->0
}

/// Fitting keeps the anchor inside the window of tabs, or empties it.
proof fn lemma_fit_anchor(
    p: LinePlan,
    anchor: int,
    sw: nat,
    dw: nat,
    bw: nat,
    tabs: Seq<SegmentView>,
    max: nat,
)
    requires
        p.lo <= p.hi <= tabs.len(),
        p.lo == p.hi || p.lo <= anchor < p.hi,
    ensures
        ({
            let f = fit(p, anchor, sw, dw, bw, tabs, max);
            f.lo == f.hi || f.lo <= anchor < f.hi
        }),
    decreases plan_size(p),
{
    if plan_width(p, sw, dw, bw, tabs) > max && plan_size(p) > 0 {
        lemma_shrink_window(p, anchor);
        lemma_fit_anchor(shrink(p, anchor), anchor, sw, dw, bw, tabs, max);
    }
}

/// The segments of a plan: its labels, then the tabs of its window, then the
/// spacer and the badge; only the tabs carry a tab index.
proof fn lemma_segments_shape(
    p: LinePlan,
    session: Seq<char>,
    dir: Seq<char>,
    label: Seq<char>,
    tabs: Seq<SegmentView>,
    config: UserConfiguration,
    mode: InputMode,
    max: nat,
)
    requires
        p.lo <= p.hi <= tabs.len(),
    ensures
        ({
            let segs = plan_segments(p, session, dir, label, tabs, config, mode, max);
            let left = (if p.session { 1int } else { 0 }) + (if p.directory { 1int } else { 0 });
            let w = p.hi - p.lo;
            &&& left + w <= segs.len()
            &&& forall|k: int| 0 <= k < left ==> (#[trigger] segs[k]).tab_index is None
            &&& forall|k: int| left <= k < left + w ==> #[trigger] segs[k] == tabs[p.lo + k - left]
            &&& forall|k: int| left + w <= k < segs.len() ==> (#[trigger] segs[k]).tab_index is None
        }),
{
}

/// What holds of every composed line: it fits in `max` columns; where all
/// tabs fit, the active tab is shown; while any tab is shown, the active one
/// is; the tabs keep their order; and with no columns to fill and tabs that
/// each take a column, it is empty.
#[verifier::rlimit(40)]
pub proof fn lemma_line_spec_laws(
    session: Option<Seq<char>>,
    tabs: Seq<SegmentView>,
    active: nat,
    max: nat,
    config: UserConfiguration,
    mode: InputMode,
    dir: Seq<char>,
)
    requires
        tabs.len() <= usize::MAX,
    ensures
        total_len(line_spec(session, tabs, active, max, config, mode, dir)) <= max,
        shows_active_tab(line_spec(session, tabs, active, max, config, mode, dir), tabs, active, max),
        (forall|i: int| 0 <= i < tabs.len() ==> #[trigger] tabs[i].tab_index == Some(i as usize))
            && tabs.len() > 0 && 1 <= active <= tabs.len() && total_len(tabs) <= max
            ==> exists|k: int|
            0 <= k < line_spec(session, tabs, active, max, config, mode, dir).len()
                && #[trigger] line_spec(session, tabs, active, max, config, mode, dir)[k].tab_index
                == Some((active - 1) as usize),
        max == 0 && all_take_columns(tabs) ==> line_spec(
            session,
            tabs,
            active,
            max,
            config,
            mode,
            dir,
        ).len() == 0,
        keeps_active(line_spec(session, tabs, active, max, config, mode, dir), tabs, active),
        indexes_ascending(tabs) ==> indexes_ascending(line_spec(session, tabs, active, max, config, mode, dir)),
        indexes_increasing(tabs) ==> indexes_increasing(line_spec(session, tabs, active, max, config, mode, dir)),
{
    if tabs.len() > 0 {
        let name = match session {
            Some(s) => s,
            None => Seq::empty(),
        };
        let label = config.mode_label(mode);
        let p0 = initial_plan(session, dir, label, tabs.len(), config);
        let anchor = anchor_of(active, tabs.len());
        let sw = session_text(name).len();
        let dw = directory_text(dir).len();
        let bw = badge_text(label).len();
        let p = fit(p0, anchor, sw, dw, bw, tabs, max);
        let line = plan_segments(p, name, dir, label, tabs, config, mode, max);
        assert(line == line_spec(session, tabs, active, max, config, mode, dir));
        lemma_fit_fits(p0, anchor, sw, dw, bw, tabs, max);
        lemma_segments_width(p, name, dir, label, tabs, config, mode, max);
        if 1 <= active <= tabs.len() && total_len(tabs) <= max {
            lemma_fit_keeps_tabs(p0, anchor, sw, dw, bw, tabs, max);
            let k = lemma_segments_show_tab(p, name, dir, label, tabs, config, mode, max, active - 1);
            assert(line[k].tab_index == tabs[active - 1].tab_index);
            if forall|i: int| 0 <= i < tabs.len() ==> #[trigger] tabs[i].tab_index == Some(i as usize) {
                assert(tabs[active - 1].tab_index == Some((active - 1) as usize));
            }
        }
        if max == 0 && all_take_columns(tabs) {
            lemma_segments_positive(p, name, dir, label, tabs, config, mode, max);
            lemma_total_len_zero(line);
        }
        lemma_fit_anchor(p0, anchor, sw, dw, bw, tabs, max);
        lemma_segments_shape(p, name, dir, label, tabs, config, mode, max);
        let left = (if p.session { 1int } else { 0 }) + (if p.directory { 1int } else { 0 });
        let w = p.hi - p.lo;
        if 1 <= active <= tabs.len() && (exists|k: int| 0 <= k < line.len() && (#[trigger] line[k]).tab_index is Some) {
            let k = choose|k: int| 0 <= k < line.len() && (#[trigger] line[k]).tab_index is Some;
            assert(left <= k < left + w);
            let a = left + anchor - p.lo;
            assert(line[a] == tabs[active - 1]);
        }
        if indexes_ascending(tabs) {
            assert forall|k: int, l: int|
                0 <= k < l < line.len() && (#[trigger] line[k]).tab_index is Some && (#[trigger] line[l]).tab_index is Some
                    implies line[k].tab_index->0 <= line[l].tab_index->0 by {
                assert(line[k] == tabs[p.lo + k - left]);
                assert(line[l] == tabs[p.lo + l - left]);
            }
        }
        if indexes_increasing(tabs) {
            assert forall|k: int, l: int|
                0 <= k < l < line.len() && (#[trigger] line[k]).tab_index is Some && (#[trigger] line[l]).tab_index is Some
                    implies line[k].tab_index->0 < line[l].tab_index->0 by {
                assert(line[k] == tabs[p.lo + k - left]);
                assert(line[l] == tabs[p.lo + l - left]);
            }
        }
    }
}

/// The tab at position `t` of the plan's window stands in its segments,
/// after the labels that the plan keeps.
proof fn lemma_segments_show_tab(
    p: LinePlan,
    session: Seq<char>,
    dir: Seq<char>,
    label: Seq<char>,
    tabs: Seq<SegmentView>,
    config: UserConfiguration,
    mode: InputMode,
    max: nat,
    t: int,
) -> (k: int)
    requires
        p.lo <= t < p.hi <= tabs.len(),
    ensures
        0 <= k < plan_segments(p, session, dir, label, tabs, config, mode, max).len(),
        plan_segments(p, session, dir, label, tabs, config, mode, max)[k] == tabs[t],
{
    let segs = plan_segments(p, session, dir, label, tabs, config, mode, max);
    let left = (if p.session { 1int } else { 0 }) + (if p.directory { 1int } else { 0 });
    let k = left + t - p.lo;
    assert(segs[k] == tabs[t]);
    k
}

/// Where every tab takes a column, so does every segment of a plan.
proof fn lemma_segments_positive(
    p: LinePlan,
    session: Seq<char>,
    dir: Seq<char>,
    label: Seq<char>,
    tabs: Seq<SegmentView>,
    config: UserConfiguration,
    mode: InputMode,
    max: nat,
)
    requires
        p.lo <= p.hi <= tabs.len(),
        forall|i: int| 0 <= i < tabs.len() ==> #[trigger] tabs[i].len > 0,
    ensures
        forall|j: int|
            0 <= j < plan_segments(p, session, dir, label, tabs, config, mode, max).len()
                ==> #[trigger] plan_segments(p, session, dir, label, tabs, config, mode, max)[j].len
                > 0,
{
    let segs = plan_segments(p, session, dir, label, tabs, config, mode, max);
    let left = (if p.session { 1int } else { 0 }) + (if p.directory { 1int } else { 0 });
    assert forall|j: int| 0 <= j < segs.len() implies #[trigger] segs[j].len > 0 by {
        if left <= j < left + (p.hi - p.lo) {
            assert(segs[j] == tabs[p.lo + j - left]);
        }
    }
}

/// Color of the mode badge: one for the default mode, one for all others.
fn mode_color_of(mode: InputMode, config: &UserConfiguration) -> (r: PaletteColor)
    ensures
        r == mode_color(mode, *config),
{
    match mode {
        InputMode::Normal => config.color_normal_mode,
        _ => config.color_other_modes,
    }
}

/// The segments of a plan that fits take exactly `max` columns where the
/// badge is kept, and the plan's own width where it is not.
proof fn lemma_segments_width(
    p: LinePlan,
    session: Seq<char>,
    dir: Seq<char>,
    label: Seq<char>,
    tabs: Seq<SegmentView>,
    config: UserConfiguration,
    mode: InputMode,
    max: nat,
)
    requires
        p.lo <= p.hi <= tabs.len(),
        plan_width(
            p,
            session_text(session).len(),
            directory_text(dir).len(),
            badge_text(label).len(),
            tabs,
        ) <= max,
    ensures
        total_len(plan_segments(p, session, dir, label, tabs, config, mode, max)) <= max,
{
    let sw = session_text(session).len();
    let dw = directory_text(dir).len();
    let bw = badge_text(label).len();
    let gap = max - plan_width(p, sw, dw, bw, tabs);
    let a: Seq<SegmentView> = if p.session {
        seq![session_segment(session, config)]
    } else {
        Seq::empty()
    };
    let b: Seq<SegmentView> = if p.directory {
        seq![directory_segment(dir, config)]
    } else {
        Seq::empty()
    };
    let c = tabs.subrange(p.lo as int, p.hi as int);
    let sp: Seq<SegmentView> = if gap > 0 {
        seq![spacer_segment(gap as nat, config)]
    } else {
        Seq::empty()
    };
    let d: Seq<SegmentView> = if p.badge {
        sp + seq![badge_segment(label, mode, config)]
    } else {
        Seq::empty()
    };
    assert(plan_segments(p, session, dir, label, tabs, config, mode, max) == a + b + c + d);
    lemma_total_len_concat(a, b);
    lemma_total_len_concat(a + b, c);
    lemma_total_len_concat(a + b + c, d);
    lemma_total_len_concat(sp, seq![badge_segment(label, mode, config)]);
    assert(total_len(seq![badge_segment(label, mode, config)]) == bw) by {
        assert(seq![badge_segment(label, mode, config)].drop_last() =~= Seq::<SegmentView>::empty());
    }
    assert(total_len(sp) == if gap > 0 { gap as nat } else { 0 }) by {
        if gap > 0 {
            assert(sp.drop_last() =~= Seq::<SegmentView>::empty());
        }
    }
    assert(total_len(a) == if p.session { sw } else { 0 }) by {
        if p.session {
            assert(a.drop_last() =~= Seq::<SegmentView>::empty());
        }
    }
    assert(total_len(b) == if p.directory { dw } else { 0 }) by {
        if p.directory {
            assert(b.drop_last() =~= Seq::<SegmentView>::empty());
        }
    }
}


/// Composing is a function of its inputs: two lines composed from the same
/// inputs are the same segments, and print as the same text.
pub proof fn lemma_tab_line_deterministic(
    first: Seq<SegmentView>,
    second: Seq<SegmentView>,
    session: Option<Seq<char>>,
    tabs: Seq<SegmentView>,
    active: nat,
    max: nat,
    config: UserConfiguration,
    mode: InputMode,
    dir: Seq<char>,
)
    requires
        first == line_spec(session, tabs, active, max, config, mode, dir),
        second == line_spec(session, tabs, active, max, config, mode, dir),
    ensures
        first == second,
        line_text(first) == line_text(second),
{
}

/// The text of the line: the segments' texts one after the other.
pub fn render_line(parts: &Vec<LinePart>) -> (r: String)
    ensures
        r@ == line_text(parts_view(parts@)),
{
    let ghost pv = parts_view(parts@);
    let mut out = String::new();
    let mut i: usize = 0;
    while i < parts.len()
        invariant
            i <= parts@.len(),
            pv == parts_view(parts@),
            out@ == line_text(pv.subrange(0, i as int)),
        decreases parts@.len() - i,
    {
        out.append(parts[i].part.as_str());
        assert(pv.subrange(0, i + 1).drop_last() =~= pv.subrange(0, i as int));
        assert(pv[i as int] == parts@[i as int]@);
        i = i + 1;
    }
    assert(pv.subrange(0, parts@.len() as int) =~= pv);
    out
}

} // verus!
