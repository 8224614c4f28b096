use crate::config::UserConfiguration;
use crate::line::{
    indexes_ascending, indexes_increasing, keeps_active, line_spec, name_view,
    tab_line,
};
use crate::model::{total_len, parts_view, InputMode, LinePart, PaletteColor, SegmentView, TabInfo};
use crate::text::{decimal_of, push_decimal};
use crate::tab::{shown_name, styled_tab, sync_name, tab_plain_text, tab_style};
use vstd::prelude::*;
use vstd::string::*;

verus! {

/// Tab `i` is the first active one in list order.
pub open spec fn is_first_active(tabs: Seq<TabInfo>, i: int) -> bool {
    &&& 0 <= i < tabs.len()
    &&& tabs[i].active
    &&& forall|j: int| 0 <= j < i ==> !(#[trigger] tabs[j].active)
}

/// The 1-based index, in list order, of the first active tab; 0 where no tab
/// is active.
pub open spec fn active_number(tabs: Seq<TabInfo>) -> nat {
    if exists|i: int| is_first_active(tabs, i) {
        (choose|i: int| is_first_active(tabs, i)) as nat + 1
    } else {
        0
    }
}

/// The 1-based index, in list order, of the first active tab, if any.
pub fn active_tab_index(tabs: &Vec<TabInfo>) -> (r: Option<usize>)
    ensures
        match r {
            Some(i) => 1 <= i <= tabs@.len() && tabs@[i - 1].active && forall|j: int|
                0 <= j < i - 1 ==> !(#[trigger] tabs@[j].active),
            None => forall|j: int| 0 <= j < tabs@.len() ==> !(#[trigger] tabs@[j].active),
        },
        match r {
            Some(i) => i == active_number(tabs@),
            None => active_number(tabs@) == 0,
        },
{
    let mut i: usize = 0;
    while i < tabs.len()
        invariant
            i <= tabs@.len(),
            forall|j: int| 0 <= j < i ==> !(#[trigger] tabs@[j].active),
        decreases tabs@.len() - i,
    {
        if tabs[i].active {
            proof {
                assert(is_first_active(tabs@, i as int));
                let c = choose|c: int| is_first_active(tabs@, c);
                if c < i {
                    assert(tabs@[c].active);
                } else if c > i {
                    assert(!tabs@[i as int].active);
                }
            }
            return Some(i + 1);
        }
        i = i + 1;
    }
    proof {
        if exists|c: int| is_first_active(tabs@, c) {
            let c = choose|c: int| is_first_active(tabs@, c);
            assert(tabs@[c].active);
        }
    }
    None
}

/// The tab that scrolling up switches to: the next one, or the last.
pub fn scroll_up_target(active_tab_idx: usize, tab_count: usize) -> (r: usize)
    ensures
        r == if active_tab_idx + 1 <= tab_count {
            active_tab_idx + 1
        } else {
            tab_count as int
        },
{
    if active_tab_idx < tab_count {
        active_tab_idx + 1
    } else {
        tab_count
    }
}

/// The tab that scrolling down switches to: the previous one, or the first.
pub fn scroll_down_target(active_tab_idx: usize) -> (r: usize)
    ensures
        r == if active_tab_idx >= 2 {
            active_tab_idx - 1
        } else {
            1
        },
{
    if active_tab_idx >= 2 {
        active_tab_idx - 1
    } else {
        1
    }
}

/// The name a tab is shown under: a prompt in place of an empty name while
/// the active tab is being renamed.
pub open spec fn entered_name(tab: TabInfo, mode: InputMode) -> Seq<char> {
    if tab.active && mode == InputMode::RenameTab && tab.name@.len() == 0 {
        "Enter name..."@
    } else {
        tab.name@
    }
}

/// The segment of each tab, in list order.
pub open spec fn tabs_spec(tabs: Seq<TabInfo>, mode: InputMode, config: UserConfiguration) -> Seq<
    SegmentView,
> {
    Seq::new(
        tabs.len(),
        |i: int|
            styled_tab(entered_name(tabs[i], mode), tabs[i], config),
    )
}

/// Every tab's 1-based number fits in a `usize`.
pub open spec fn positions_fit(tabs: Seq<TabInfo>) -> bool {
    forall|i: int| 0 <= i < tabs.len() ==> (#[trigger] tabs[i]).position < usize::MAX
}

/// Builds the segment of each tab.
pub fn tab_segments(tabs: &Vec<TabInfo>, mode: InputMode, config: &UserConfiguration) -> (r: Vec<
    LinePart,
>)
    requires
        positions_fit(tabs@),
    ensures
        parts_view(r@) == tabs_spec(tabs@, mode, *config),
{
    let mut out: Vec<LinePart> = Vec::new();
    let mut i: usize = 0;
    while i < tabs.len()
        invariant
            i <= tabs@.len(),
            positions_fit(tabs@),
            parts_view(out@) =~= tabs_spec(tabs@, mode, *config).subrange(0, i as int),
        decreases tabs@.len() - i,
    {
        let t = &tabs[i];
        let name = if t.active && matches!(mode, InputMode::RenameTab) && t.name.as_str().unicode_len()
            == 0 {
            let prompt = "Enter name...";
            String::from_str(prompt)
        } else {
            t.name.clone()
        };
        assert(name@ == entered_name(*t, mode));
        let part = tab_style(name, t, config);
        let ghost before = out@;
        out.push(part);
        assert(parts_view(out@) =~= parts_view(before).push(part@));
        i = i + 1;
    }
    out
}

/// The columns that the bar may fill in a terminal `cols` wide: all but the
/// last.
pub open spec fn bar_budget(cols: usize) -> nat {
    if cols >= 1 {
        (cols - 1) as nat
    } else {
        0
    }
}

/// The segments of the tabs of `tabs` taken in ascending position order.
pub open spec fn sorted_tabs_spec(tabs: Seq<TabInfo>, mode: InputMode, config: UserConfiguration) -> Seq<
    SegmentView,
> {
    tabs_spec(by_position(tabs), mode, config)
}

/// The composed bar for `cols` terminal columns, keeping the last column free:
/// the segments of the tabs, in ascending position order, fitted with the
/// session and mode decorations, the session label left out where the theme
/// hides it. The active tab is the first active one in position order.
pub fn render_bar(
    tabs: &Vec<TabInfo>,
    session_name: Option<String>,
    hide_session_name: bool,
    mode: InputMode,
    config: &UserConfiguration,
    session_directory: String,
    cols: usize,
) -> (r: Vec<LinePart>)
    requires
        config.wf(),
        positions_fit(tabs@),
    ensures
        parts_view(r@) == line_spec(
            if hide_session_name {
                None
            } else {
                name_view(session_name)
            },
            sorted_tabs_spec(tabs@, mode, *config),
            active_number(by_position(tabs@)),
            bar_budget(cols),
            *config,
            mode,
            session_directory@,
        ),
        total_len(parts_view(r@)) <= bar_budget(cols),
        bar_budget(cols) == 0 ==> r@.len() == 0,
        keeps_active(
            parts_view(r@),
            sorted_tabs_spec(tabs@, mode, *config),
            active_number(by_position(tabs@)),
        ),
        indexes_ascending(parts_view(r@)),
        distinct_positions(tabs@) ==> indexes_increasing(parts_view(r@)),
{
    let sorted = sort_by_position(tabs);
    proof {
        lemma_by_position_positions(tabs@);
        assert forall|i: int| 0 <= i < sorted@.len() implies (#[trigger] sorted@[i]).position
            < usize::MAX by {
            let m = choose|m: int| 0 <= m < tabs@.len() && sorted@[i].position == tabs@[m].position;
            assert(tabs@[m].position < usize::MAX);
        }
    }
    let active = match active_tab_index(&sorted) {
        Some(i) => i,
        None => 0,
    };
    let segments = tab_segments(&sorted, mode, config);
    let ghost sv = tabs_spec(sorted@, mode, *config);
    proof {
        assert forall|i: int| 0 <= i < sv.len() implies #[trigger] sv[i].len > 0 by {
            assert(tab_plain_text(
                sync_name(
                    shown_name(entered_name(sorted@[i], mode), sorted@[i].position as nat, config.default_tab_name@),
                    sorted@[i].is_sync_panes_active,
                ),
                sorted@[i].position as nat,
            ).len() >= 2);
        }
        assert forall|k: int, l: int|
            0 <= k < l < sv.len() && (#[trigger] sv[k]).tab_index is Some && (#[trigger] sv[l]).tab_index is Some
                implies sv[k].tab_index->0 <= sv[l].tab_index->0 by {
            assert(sorted@[k].position <= sorted@[l].position);
        }
        if distinct_positions(tabs@) {
            assert forall|k: int, l: int|
                0 <= k < l < sv.len() && (#[trigger] sv[k]).tab_index is Some && (#[trigger] sv[l]).tab_index is Some
                    implies sv[k].tab_index->0 < sv[l].tab_index->0 by {
                assert(sorted@[k].position < sorted@[l].position);
            }
        }
    }
    let budget = if cols >= 1 {
        cols - 1
    } else {
        0
    };
    let shown_name = if hide_session_name {
        None
    } else {
        session_name
    };
    tab_line(shown_name, segments, active, budget, config, mode, session_directory)
}

/// What `str::trim` leaves of `s`.
pub uninterp spec fn trimmed(s: Seq<char>) -> Seq<char>;

/// Relies on `str::trim`: `s` without its leading and trailing whitespace,
/// which depends on the characters alone.
#[verifier::external_body]
fn trim_text(s: &str) -> (r: &str)
    ensures
        r@ == trimmed(s@),
{
    s.trim()
}

/// The part of `path` after its last `/`: all of it where it has none.
pub open spec fn after_last_slash(path: Seq<char>) -> Seq<char>
    decreases path.len(),
{
    if path.len() == 0 {
        path
    } else if path.last() == '/' {
        Seq::empty()
    } else {
        after_last_slash(path.drop_last()).push(path.last())
    }
}

/// The last component of `path`: what follows its last `/`.
pub fn last_path_component(path: &str) -> (r: String)
    ensures
        r@ == after_last_slash(path@),
{
    let n = path.unicode_len();
    let mut i: usize = n;
    assert(path@.subrange(0, n as int) =~= path@);
    while i > 0 && path.get_char(i - 1) != '/'
        invariant
            i <= n == path@.len(),
            after_last_slash(path@) == after_last_slash(path@.subrange(0, i as int))
                + path@.subrange(i as int, n as int),
        decreases i,
    {
        let ghost pre = path@.subrange(0, i as int);
        assert(pre.drop_last() =~= path@.subrange(0, i - 1));
        assert(pre.last() == path@[i - 1]);
        assert(after_last_slash(pre) == after_last_slash(pre.drop_last()).push(pre.last()));
        assert(after_last_slash(pre.drop_last()).push(pre.last()) + path@.subrange(i as int, n as int)
            =~= after_last_slash(pre.drop_last()) + path@.subrange(i - 1, n as int));
        i = i - 1;
    }
    proof {
        if i > 0 {
            let pre = path@.subrange(0, i as int);
            assert(pre.last() == path@[i - 1]);
            assert(after_last_slash(pre) =~= Seq::<char>::empty());
        } else {
            assert(path@.subrange(0, 0) =~= Seq::<char>::empty());
        }
        assert(after_last_slash(path@) =~= path@.subrange(i as int, n as int));
    }
    String::from_str(path.substring_char(i, n))
}

/// The directory name shown for the output of `pwd`: the last component of
/// the trimmed output.
pub fn session_directory_name(output: &str) -> (r: String)
    ensures
        r@ == after_last_slash(trimmed(output@)),
{
    last_path_component(trim_text(output))
}

/// The escape codes that set the background to `color` and clear the rest of
/// the line with it.
pub open spec fn fill_text(color: PaletteColor) -> Seq<char> {
    match color {
        PaletteColor::Rgb(r, g, b) => "\u{1b}[48;2;"@ + decimal_of(r as nat) + ";"@ + decimal_of(
            g as nat,
        ) + ";"@ + decimal_of(b as nat) + "m\u{1b}[0K"@,
        PaletteColor::EightBit(c) => "\u{1b}[48;5;"@ + decimal_of(c as nat) + "m\u{1b}[0K"@,
    }
}

/// The escape codes that fill the rest of the line with the background color.
pub fn background_fill(color: PaletteColor) -> (r: String)
    ensures
        r@ == fill_text(color),
{
    let mut out = String::new();
    match color {
        PaletteColor::Rgb(r, g, b) => {
            out.append("\u{1b}[48;2;");
            push_decimal(&mut out, r as usize);
            out.append(";");
            push_decimal(&mut out, g as usize);
            out.append(";");
            push_decimal(&mut out, b as usize);
            out.append("m\u{1b}[0K");
        },
        PaletteColor::EightBit(c) => {
            out.append("\u{1b}[48;5;");
            push_decimal(&mut out, c as usize);
            out.append("m\u{1b}[0K");
        },
    }
    assert(out@ =~= fill_text(color));
    out
}


/// Number of leading tabs of `s` whose position is at most `p`.
pub open spec fn leading_at_most(s: Seq<TabInfo>, p: usize) -> nat
    decreases s.len(),
{
    if s.len() == 0 {
        0
    } else if s[0].position <= p {
        1 + leading_at_most(s.drop_first(), p)
    } else {
        0
    }
}

/// `s` with `t` inserted after the leading tabs whose position is at most
/// that of `t`.
pub open spec fn insert_by_position(s: Seq<TabInfo>, t: TabInfo) -> Seq<TabInfo> {
    s.insert(leading_at_most(s, t.position) as int, t)
}

/// The tabs of `s` in ascending position order; tabs of equal position keep
/// their order.
pub open spec fn by_position(s: Seq<TabInfo>) -> Seq<TabInfo>
    decreases s.len(),
{
    if s.len() == 0 {
        s
    } else {
        insert_by_position(by_position(s.drop_last()), s.last())
    }
}

/// Positions never decrease along `s`.
pub open spec fn ascending(s: Seq<TabInfo>) -> bool {
    forall|i: int, j: int| 0 <= i < j < s.len() ==> s[i].position <= s[j].position
}

/// Positions strictly increase along `s`.
pub open spec fn increasing(s: Seq<TabInfo>) -> bool {
    forall|i: int, j: int| 0 <= i < j < s.len() ==> s[i].position < s[j].position
}

/// No two tabs of `s` share a position.
pub open spec fn distinct_positions(s: Seq<TabInfo>) -> bool {
    forall|i: int, j: int| 0 <= i < s.len() && 0 <= j < s.len() && i != j ==> s[i].position != s[j].position
}

proof fn lemma_leading(s: Seq<TabInfo>, p: usize)
    ensures
        leading_at_most(s, p) <= s.len(),
        forall|k: int| 0 <= k < leading_at_most(s, p) ==> s[k].position <= p,
        leading_at_most(s, p) < s.len() ==> s[leading_at_most(s, p) as int].position > p,
    decreases s.len(),
{
    if s.len() > 0 {
        lemma_leading(s.drop_first(), p);
        if s[0].position <= p {
            assert forall|k: int| 0 <= k < leading_at_most(s, p) implies s[k].position <= p by {
                if k > 0 {
                    assert(s[k] == s.drop_first()[k - 1]);
                }
            }
        }
    }
}

/// Sorting keeps the number of tabs, and every position of the result is a
/// position of the input.
pub proof fn lemma_by_position_positions(s: Seq<TabInfo>)
    ensures
        by_position(s).len() == s.len(),
        forall|k: int|
            0 <= k < s.len() ==> exists|m: int|
                0 <= m < s.len() && (#[trigger] by_position(s)[k]).position == s[m].position,
    decreases s.len(),
{
    if s.len() > 0 {
        let prev = s.drop_last();
        lemma_by_position_positions(prev);
        let b = by_position(prev);
        lemma_leading(b, s.last().position);
        let j = leading_at_most(b, s.last().position) as int;
        let r = by_position(s);
        assert forall|k: int| 0 <= k < s.len() implies exists|m: int|
            0 <= m < s.len() && (#[trigger] r[k]).position == s[m].position by {
            if k < j {
                assert(r[k] == b[k]);
                let m = choose|m: int| 0 <= m < prev.len() && b[k].position == prev[m].position;
                assert(prev[m] == s[m]);
            } else if k == j {
                assert(r[k] == s[s.len() - 1]);
            } else {
                assert(r[k] == b[k - 1]);
                let m = choose|m: int| 0 <= m < prev.len() && b[k - 1].position == prev[m].position;
                assert(prev[m] == s[m]);
            }
        }
    }
}

/// The sorted tabs ascend by position, and strictly where no two tabs share
/// a position.
pub proof fn lemma_by_position_sorted(s: Seq<TabInfo>)
    ensures
        ascending(by_position(s)),
        distinct_positions(s) ==> increasing(by_position(s)),
    decreases s.len(),
{
    if s.len() > 0 {
        let prev = s.drop_last();
        let t = s.last();
        lemma_by_position_sorted(prev);
        lemma_by_position_positions(prev);
        let b = by_position(prev);
        lemma_leading(b, t.position);
        let j = leading_at_most(b, t.position) as int;
        let r = by_position(s);
        assert(r == b.insert(j, t));
        assert forall|k: int| j < k < r.len() implies r[k].position > t.position by {
            assert(r[k] == b[k - 1]);
            assert(b[j].position > t.position);
        }
        assert(ascending(r));
        if distinct_positions(s) {
            assert forall|k: int| 0 <= k < b.len() implies b[k].position != t.position by {
                let m = choose|m: int| 0 <= m < prev.len() && (#[trigger] b[k]).position == prev[m].position;
                assert(prev[m] == s[m]);
                assert(s[s.len() - 1] == t);
            }
            assert forall|i: int, k: int| 0 <= i < k < prev.len() implies prev[i].position
                != prev[k].position by {
                assert(prev[i] == s[i]);
                assert(prev[k] == s[k]);
            }
            assert(distinct_positions(prev));
            assert forall|i: int, k: int| 0 <= i < k < r.len() implies r[i].position
                < r[k].position by {
                if k < j {
                } else if k == j {
                    assert(r[i] == b[i]);
                } else if i < j {
                } else if i == j {
                } else {
                    assert(r[i] == b[i - 1]);
                    assert(r[k] == b[k - 1]);
                }
            }
        }
    }
}

/// A copy of `t`, field by field.
fn copy_tab(t: &TabInfo) -> (r: TabInfo)
    ensures
        r == *t,
{
    TabInfo {
        position: t.position,
        name: t.name.clone(),
        active: t.active,
        is_sync_panes_active: t.is_sync_panes_active,
    }
}

/// The tabs in ascending position order; tabs of equal position keep their
/// order.
pub fn sort_by_position(tabs: &Vec<TabInfo>) -> (r: Vec<TabInfo>)
    ensures
        r@ == by_position(tabs@),
        r@.len() == tabs@.len(),
        ascending(r@),
        distinct_positions(tabs@) ==> increasing(r@),
{
    let mut out: Vec<TabInfo> = Vec::new();
    let mut i: usize = 0;
    while i < tabs.len()
        invariant
            i <= tabs@.len(),
            out@ == by_position(tabs@.subrange(0, i as int)),
        decreases tabs@.len() - i,
    {
        let t = copy_tab(&tabs[i]);
        let ghost b = out@;
        let mut j: usize = 0;
        assert(b.subrange(0, b.len() as int) =~= b);
        while j < out.len() && out[j].position <= t.position
            invariant
                out@ == b,
                j <= b.len(),
                leading_at_most(b, t.position) == j + leading_at_most(
                    b.subrange(j as int, b.len() as int),
                    t.position,
                ),
            decreases b.len() - j,
        {
            assert(b.subrange(j as int, b.len() as int).drop_first() =~= b.subrange(
                j + 1,
                b.len() as int,
            ));
            j = j + 1;
        }
        out.insert(j, t);
        assert(tabs@.subrange(0, i + 1).drop_last() =~= tabs@.subrange(0, i as int));
        i = i + 1;
    }
    assert(tabs@.subrange(0, tabs@.len() as int) =~= tabs@);
    proof {
        lemma_by_position_positions(tabs@);
        lemma_by_position_sorted(tabs@);
    }
    out
}

} // verus!
