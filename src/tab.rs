use crate::config::UserConfiguration;
use crate::model::{LinePart, PaletteColor, SegmentView, TabInfo};
use crate::paint::{paint_bold, painted_bold};
use crate::text::{decimal_of, push_decimal};
use vstd::prelude::*;
use vstd::string::*;

verus! {

/// The name that the host gives a tab it created without one.
pub open spec fn generated_name(number: nat) -> Seq<char> {
    "Tab #"@ + decimal_of(number)
}

/// The name shown for a tab called `text`: the configured default name in
/// place of an empty or a generated one.
pub open spec fn shown_name(text: Seq<char>, position: nat, default_name: Seq<char>) -> Seq<char> {
    if text.len() == 0 || text == generated_name(position + 1) {
        default_name
    } else {
        text
    }
}

/// The unstyled text of a tab's segment: its 1-based number and name, with a
/// space on the right, and one on the left for every tab but the first.
pub open spec fn tab_plain_text(name: Seq<char>, position: nat) -> Seq<char> {
    (if position == 0 { Seq::empty() } else { seq![' '] }) + decimal_of(position + 1) + seq![' ']
        + name + seq![' ']
}

/// Foreground color of a tab's segment.
pub open spec fn tab_color(active: bool, config: UserConfiguration) -> PaletteColor {
    if active {
        config.color_active_tab
    } else {
        config.color_tab
    }
}

/// Name of a tab once the suffix that marks synchronised panes is added.
pub open spec fn sync_name(name: Seq<char>, sync: bool) -> Seq<char> {
    if sync {
        name + " (Sync)"@
    } else {
        name
    }
}

/// The segment of `tab` labelled `label`, which is shown as it is.
pub open spec fn labelled_tab(label: Seq<char>, tab: TabInfo, config: UserConfiguration) -> SegmentView {
    let plain = tab_plain_text(label, tab.position as nat);
    SegmentView {
        text: painted_bold(tab_color(tab.active, config), config.color_bg, plain),
        len: plain.len(),
        tab_index: Some(tab.position),
    }
}

/// The segment of `tab` shown under the name `text`.
pub open spec fn rendered_tab(text: Seq<char>, tab: TabInfo, config: UserConfiguration) -> SegmentView {
    labelled_tab(shown_name(text, tab.position as nat, config.default_tab_name@), tab, config)
}

/// The segment of `tab` named `tabname`: the name resolved first, then
/// marked when the tab's panes are synchronised.
pub open spec fn styled_tab(tabname: Seq<char>, tab: TabInfo, config: UserConfiguration) -> SegmentView {
    labelled_tab(
        sync_name(
            shown_name(tabname, tab.position as nat, config.default_tab_name@),
            tab.is_sync_panes_active,
        ),
        tab,
        config,
    )
}

/// The name shown for a tab called `text` at `position`.
fn resolve_name(text: String, position: usize, default_name: &String) -> (r: String)
    requires
        position < usize::MAX,
    ensures
        r@ == shown_name(text@, position as nat, default_name@),
{
    let mut generated = String::new();
    generated.append("Tab #");
    push_decimal(&mut generated, position + 1);
    if text.as_str().unicode_len() == 0 || text == generated {
        default_name.clone()
    } else {
        text
    }
}

/// Builds the segment of `tab` labelled `label`.
fn labelled_segment(label: &String, tab: &TabInfo, config: &UserConfiguration) -> (r: LinePart)
    requires
        tab.position < usize::MAX,
    ensures
        r@ == labelled_tab(label@, *tab, *config),
{
    let mut plain = String::new();
    let space = " ";
    proof {
        reveal_strlit(" ");
    }
    if tab.position != 0 {
        plain.append(space);
    }
    push_decimal(&mut plain, tab.position + 1);
    plain.append(space);
    plain.append(label.as_str());
    plain.append(space);
    assert(plain@ =~= tab_plain_text(label@, tab.position as nat));
    let len = plain.as_str().unicode_len();
    let fg = if tab.active {
        config.color_active_tab
    } else {
        config.color_tab
    };
    LinePart { part: paint_bold(fg, config.color_bg, plain), len, tab_index: Some(tab.position) }
}

/// Builds the segment of `tab`, shown under the name `text`.
pub fn render_tab(text: String, tab: &TabInfo, config: &UserConfiguration) -> (r: LinePart)
    requires
        tab.position < usize::MAX,
    ensures
        r@ == rendered_tab(text@, *tab, *config),
{
    let name = resolve_name(text, tab.position, &config.default_tab_name);
    labelled_segment(&name, tab, config)
}

/// Builds the segment of `tab` under the name `tabname`: the name is resolved
/// first, then marked when the tab's panes are synchronised.
pub fn tab_style(tabname: String, tab: &TabInfo, config: &UserConfiguration) -> (r: LinePart)
    requires
        tab.position < usize::MAX,
    ensures
        r@ == styled_tab(tabname@, *tab, *config),
{
    let mut name = resolve_name(tabname, tab.position, &config.default_tab_name);
    if tab.is_sync_panes_active {
        name.append(" (Sync)");
    }
    labelled_segment(&name, tab, config)
}

} // verus!
