use vstd::prelude::*;

verus! {

/// A terminal color: a 24-bit color, or an index into the 256-color palette.
#[derive(Clone, Copy, Debug, PartialEq, Eq, Structural)]
pub enum PaletteColor {
    Rgb(u8, u8, u8),
    EightBit(u8),
}

/// The input mode that the host is in.
#[derive(Clone, Copy, Debug, PartialEq, Eq, Structural)]
pub enum InputMode {
    Normal,
    Locked,
    Resize,
    Pane,
    Tab,
    Scroll,
    EnterSearch,
    Search,
    RenameTab,
    RenamePane,
    Session,
    Move,
    Prompt,
    Tmux,
}

/// What the bar reads of one open tab.
#[derive(Clone, Debug)]
pub struct TabInfo {
    /// 0-based position of the tab.
    pub position: usize,
    pub name: String,
    pub active: bool,
    pub is_sync_panes_active: bool,
}

/// One segment of the rendered line: styled text, the number of columns it
/// takes, and the tab that it shows, if any.
#[derive(Clone, Debug)]
pub struct LinePart {
    pub part: String,
    pub len: usize,
    pub tab_index: Option<usize>,
}

/// The mathematical value of a [`LinePart`].
pub struct SegmentView {
    pub text: Seq<char>,
    pub len: nat,
    pub tab_index: Option<usize>,
}

impl View for LinePart {
    type V = SegmentView;

    open spec fn view(&self) -> SegmentView {
        SegmentView { text: self.part@, len: self.len as nat, tab_index: self.tab_index }
    }
}

/// The views of a sequence of segments.
pub open spec fn parts_view(parts: Seq<LinePart>) -> Seq<SegmentView> {
    parts.map_values(|p: LinePart| p@)
}

/// Number of columns that a sequence of segments takes.
pub open spec fn total_len(parts: Seq<SegmentView>) -> nat
    decreases parts.len(),
{
    if parts.len() == 0 {
        0
    } else {
        total_len(parts.drop_last()) + parts.last().len
    }
}

/// Column at which segment `k` starts.
pub open spec fn offset(parts: Seq<SegmentView>, k: int) -> nat {
    total_len(parts.subrange(0, k))
}

/// The text of the line: the segments' texts one after the other.
pub open spec fn line_text(parts: Seq<SegmentView>) -> Seq<char>
    decreases parts.len(),
{
    if parts.len() == 0 {
        Seq::empty()
    } else {
        line_text(parts.drop_last()) + parts.last().text
    }
}

} // verus!
