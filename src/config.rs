use crate::model::{InputMode, PaletteColor};
use vstd::prelude::*;
use vstd::string::*;

verus! {

/// Number of input modes, and of labels in [`UserConfiguration::mode_display`].
pub const MODE_COUNT: usize = 14;

/// Position of a mode in [`UserConfiguration::mode_display`].
pub open spec fn mode_slot(mode: InputMode) -> nat {
    match mode {
        InputMode::Normal => 0,
        InputMode::Locked => 1,
        InputMode::Resize => 2,
        InputMode::Pane => 3,
        InputMode::Tab => 4,
        InputMode::Scroll => 5,
        InputMode::EnterSearch => 6,
        InputMode::Search => 7,
        InputMode::RenameTab => 8,
        InputMode::RenamePane => 9,
        InputMode::Session => 10,
        InputMode::Move => 11,
        InputMode::Prompt => 12,
        InputMode::Tmux => 13,
    }
}

/// Position of a mode in [`UserConfiguration::mode_display`].
pub fn mode_index(mode: InputMode) -> (r: usize)
    ensures
        r as nat == mode_slot(mode),
        r < MODE_COUNT,
{
    match mode {
        InputMode::Normal => 0,
        InputMode::Locked => 1,
        InputMode::Resize => 2,
        InputMode::Pane => 3,
        InputMode::Tab => 4,
        InputMode::Scroll => 5,
        InputMode::EnterSearch => 6,
        InputMode::Search => 7,
        InputMode::RenameTab => 8,
        InputMode::RenamePane => 9,
        InputMode::Session => 10,
        InputMode::Move => 11,
        InputMode::Prompt => 12,
        InputMode::Tmux => 13,
    }
}

/// The resolved settings of the bar: colors, labels and toggles.
#[derive(Clone, Debug)]
pub struct UserConfiguration {
    pub color_fg: PaletteColor,
    pub color_bg: PaletteColor,
    pub color_session_directory: PaletteColor,
    pub color_session_name: PaletteColor,
    pub color_tab: PaletteColor,
    pub color_active_tab: PaletteColor,
    pub color_normal_mode: PaletteColor,
    pub color_other_modes: PaletteColor,
    pub color_others: PaletteColor,
    pub display_session_directory: bool,
    pub default_tab_name: String,
    /// The label of each mode, at the mode's position (see [`mode_index`]).
    pub mode_display: Vec<String>,
}

impl UserConfiguration {
    /// Every mode has a label.
    pub open spec fn wf(&self) -> bool {
        self.mode_display@.len() == MODE_COUNT
    }

    /// The label shown for `mode`.
    pub open spec fn mode_label(&self, mode: InputMode) -> Seq<char> {
        self.mode_display@[mode_slot(mode) as int]@
    }
}


/// The theme's colors that stand in for settings that are absent or invalid.
#[derive(Clone, Copy, Debug)]
pub struct ThemePalette {
    pub white: PaletteColor,
    pub black: PaletteColor,
    pub gray: PaletteColor,
    pub green: PaletteColor,
    pub gold: PaletteColor,
    pub orange: PaletteColor,
}

/// What `str::parse::<u8>` reads: an optional `+` and one or more decimal
/// digits whose value is at most 255.
pub open spec fn parsed_u8(s: Seq<char>) -> Option<u8> {
    let body = if s.len() > 0 && s[0] == '+' {
        s.drop_first()
    } else {
        s
    };
    if body.len() > 0 && (forall|i: int| 0 <= i < body.len() ==> '0' <= #[trigger] body[i] <= '9')
        && digits_value(body) <= 255 {
        Some(digits_value(body) as u8)
    } else {
        None
    }
}

/// Value of a run of decimal digits.
pub open spec fn digits_value(s: Seq<char>) -> nat
    decreases s.len(),
{
    if s.len() == 0 {
        0
    } else {
        digits_value(s.drop_last()) * 10 + ((s.last() as u32 - '0' as u32) as nat)
    }
}

/// Relies on `str::parse::<u8>`: an optional `+` then decimal digits, the
/// value at most 255; anything else is an error.
#[verifier::external_body]
fn parse_u8(s: &str) -> (r: Option<u8>)
    ensures
        r == parsed_u8(s@),
{
    s.parse::<u8>().ok()
}

/// Reads `true` or `false`, and nothing else.
fn parse_bool(s: &str) -> (r: Option<bool>)
    ensures
        r == (if s@ == "true"@ {
            Some(true)
        } else if s@ == "false"@ {
            Some(false)
        } else {
            None::<bool>
        }),
{
    let v = String::from_str(s);
    if v == String::from_str("true") {
        Some(true)
    } else if v == String::from_str("false") {
        Some(false)
    } else {
        None
    }
}

/// `parts` and then the value of `field`, where it reads as a number.
pub open spec fn with_field(parts: Seq<u8>, field: Seq<char>) -> Seq<u8> {
    match parsed_u8(field) {
        Some(v) => parts.push(v),
        None => parts,
    }
}

/// Reading `s` from the left: the numbers of the comma-separated fields
/// that are complete, and the field still open.
pub open spec fn scan_fields(s: Seq<char>) -> (Seq<u8>, Seq<char>)
    decreases s.len(),
{
    if s.len() == 0 {
        (Seq::empty(), Seq::empty())
    } else {
        let (parts, open) = scan_fields(s.drop_last());
        if s.last() == ',' {
            (with_field(parts, open), Seq::empty())
        } else {
            (parts, open.push(s.last()))
        }
    }
}

/// The numbers among the comma-separated fields of `s`; fields that do not
/// read as a number are skipped.
pub open spec fn color_parts(s: Seq<char>) -> Seq<u8> {
    with_field(scan_fields(s).0, scan_fields(s).1)
}

/// The color that `s` writes: one number for a palette index, three for red,
/// green and blue.
pub open spec fn color_from_str(s: Seq<char>) -> Option<PaletteColor> {
    let p = color_parts(s);
    if p.len() == 1 {
        Some(PaletteColor::EightBit(p[0]))
    } else if p.len() == 3 {
        Some(PaletteColor::Rgb(p[0], p[1], p[2]))
    } else {
        None
    }
}

/// The numbers among the comma-separated fields of `s`.
fn read_color_parts(s: &str) -> (r: Vec<u8>)
    ensures
        r@ == color_parts(s@),
{
    let n = s.unicode_len();
    let mut parts: Vec<u8> = Vec::new();
    let mut start: usize = 0;
    let mut i: usize = 0;
    while i < n
        invariant
            n == s@.len(),
            start <= i <= n,
            scan_fields(s@.subrange(0, i as int)) == (parts@, s@.subrange(start as int, i as int)),
        decreases n - i,
    {
        let c = s.get_char(i);
        assert(s@.subrange(0, i + 1).drop_last() =~= s@.subrange(0, i as int));
        if c == ',' {
            let field = s.substring_char(start, i);
            match parse_u8(field) {
                Some(v) => parts.push(v),
                None => {},
            }
            start = i + 1;
            assert(s@.subrange(start as int, i + 1) =~= Seq::<char>::empty());
        } else {
            assert(s@.subrange(start as int, i + 1) =~= s@.subrange(start as int, i as int).push(c));
        }
        i = i + 1;
    }
    let field = s.substring_char(start, n);
    assert(s@.subrange(0, n as int) =~= s@);
    match parse_u8(field) {
        Some(v) => parts.push(v),
        None => {},
    }
    parts
}

impl UserConfiguration {
    /// Reads a color written as `n` or `r,g,b`.
    pub fn str_to_palette_color(color_str: &str) -> (r: Option<PaletteColor>)
        ensures
            r == color_from_str(color_str@),
    {
        let parts = read_color_parts(color_str);
        if parts.len() == 1 {
            Some(PaletteColor::EightBit(parts[0]))
        } else if parts.len() == 3 {
            Some(PaletteColor::Rgb(parts[0], parts[1], parts[2]))
        } else {
            None
        }
    }
}


/// The value stored under `key`: that of the first entry with that key.
pub open spec fn lookup(cfg: Seq<(String, String)>, key: Seq<char>) -> Option<Seq<char>>
    decreases cfg.len(),
{
    if cfg.len() == 0 {
        None
    } else if cfg[0].0@ == key {
        Some(cfg[0].1@)
    } else {
        lookup(cfg.drop_first(), key)
    }
}

/// The color set under `key`, or `fallback` where none is set or it does not
/// read as a color.
pub open spec fn color_setting(
    cfg: Seq<(String, String)>,
    key: Seq<char>,
    fallback: PaletteColor,
) -> PaletteColor {
    match lookup(cfg, key) {
        Some(v) => match color_from_str(v) {
            Some(c) => c,
            None => fallback,
        },
        None => fallback,
    }
}

/// The text set under `key`, or `fallback`.
pub open spec fn string_setting(
    cfg: Seq<(String, String)>,
    key: Seq<char>,
    fallback: Seq<char>,
) -> Seq<char> {
    match lookup(cfg, key) {
        Some(v) => v,
        None => fallback,
    }
}

/// The flag set under `key` as `true` or `false`, or `fallback`.
pub open spec fn bool_setting(cfg: Seq<(String, String)>, key: Seq<char>, fallback: bool) -> bool {
    match lookup(cfg, key) {
        Some(v) => if v == "true"@ {
            true
        } else if v == "false"@ {
            false
        } else {
            fallback
        },
        None => fallback,
    }
}

/// The setting that holds the label of `mode`.
pub open spec fn label_key(mode: InputMode) -> Seq<char> {
    match mode {
        InputMode::Normal => "NormalModeLabel"@,
        InputMode::Locked => "LockedModeLabel"@,
        InputMode::Resize => "ResizeModeLabel"@,
        InputMode::Pane => "PaneModeLabel"@,
        InputMode::Tab => "TabModeLabel"@,
        InputMode::Scroll => "ScrollModeLabel"@,
        InputMode::EnterSearch => "EnterSearchModeLabel"@,
        InputMode::Search => "SearchModeLabel"@,
        InputMode::RenameTab => "RenameTabModeLabel"@,
        InputMode::RenamePane => "RenamePaneModeLabel"@,
        InputMode::Session => "SessionModeLabel"@,
        InputMode::Move => "MoveModeLabel"@,
        InputMode::Prompt => "PromptModeLabel"@,
        InputMode::Tmux => "TmuxModeLabel"@,
    }
}

/// The label of `mode` where none is set: the initial of its name, and
/// nothing for the locked mode.
pub open spec fn default_label(mode: InputMode) -> Seq<char> {
    match mode {
        InputMode::Normal => "N"@,
        InputMode::Locked => ""@,
        InputMode::Resize => "R"@,
        InputMode::Pane => "P"@,
        InputMode::Tab => "T"@,
        InputMode::Scroll => "S"@,
        InputMode::EnterSearch => "E"@,
        InputMode::Search => "S"@,
        InputMode::RenameTab => "R"@,
        InputMode::RenamePane => "R"@,
        InputMode::Session => "S"@,
        InputMode::Move => "M"@,
        InputMode::Prompt => "P"@,
        InputMode::Tmux => "T"@,
    }
}

/// The mode at position `i` of the label list.
pub open spec fn mode_at(i: nat) -> InputMode {
    if i == 0 {
        InputMode::Normal
    } else if i == 1 {
        InputMode::Locked
    } else if i == 2 {
        InputMode::Resize
    } else if i == 3 {
        InputMode::Pane
    } else if i == 4 {
        InputMode::Tab
    } else if i == 5 {
        InputMode::Scroll
    } else if i == 6 {
        InputMode::EnterSearch
    } else if i == 7 {
        InputMode::Search
    } else if i == 8 {
        InputMode::RenameTab
    } else if i == 9 {
        InputMode::RenamePane
    } else if i == 10 {
        InputMode::Session
    } else if i == 11 {
        InputMode::Move
    } else if i == 12 {
        InputMode::Prompt
    } else {
        InputMode::Tmux
    }
}

fn mode_of_index(i: usize) -> (r: InputMode)
    ensures
        r == mode_at(i as nat),
{
    if i == 0 {
        InputMode::Normal
    } else if i == 1 {
        InputMode::Locked
    } else if i == 2 {
        InputMode::Resize
    } else if i == 3 {
        InputMode::Pane
    } else if i == 4 {
        InputMode::Tab
    } else if i == 5 {
        InputMode::Scroll
    } else if i == 6 {
        InputMode::EnterSearch
    } else if i == 7 {
        InputMode::Search
    } else if i == 8 {
        InputMode::RenameTab
    } else if i == 9 {
        InputMode::RenamePane
    } else if i == 10 {
        InputMode::Session
    } else if i == 11 {
        InputMode::Move
    } else if i == 12 {
        InputMode::Prompt
    } else {
        InputMode::Tmux
    }
}

fn label_key_of(mode: InputMode) -> (r: &'static str)
    ensures
        r@ == label_key(mode),
{
    match mode {
        InputMode::Normal => "NormalModeLabel",
        InputMode::Locked => "LockedModeLabel",
        InputMode::Resize => "ResizeModeLabel",
        InputMode::Pane => "PaneModeLabel",
        InputMode::Tab => "TabModeLabel",
        InputMode::Scroll => "ScrollModeLabel",
        InputMode::EnterSearch => "EnterSearchModeLabel",
        InputMode::Search => "SearchModeLabel",
        InputMode::RenameTab => "RenameTabModeLabel",
        InputMode::RenamePane => "RenamePaneModeLabel",
        InputMode::Session => "SessionModeLabel",
        InputMode::Move => "MoveModeLabel",
        InputMode::Prompt => "PromptModeLabel",
        InputMode::Tmux => "TmuxModeLabel",
    }
}

fn default_label_of(mode: InputMode) -> (r: &'static str)
    ensures
        r@ == default_label(mode),
{
    match mode {
        InputMode::Normal => "N",
        InputMode::Locked => "",
        InputMode::Resize => "R",
        InputMode::Pane => "P",
        InputMode::Tab => "T",
        InputMode::Scroll => "S",
        InputMode::EnterSearch => "E",
        InputMode::Search => "S",
        InputMode::RenameTab => "R",
        InputMode::RenamePane => "R",
        InputMode::Session => "S",
        InputMode::Move => "M",
        InputMode::Prompt => "P",
        InputMode::Tmux => "T",
    }
}

/// The value of the first entry of `cfg` under `key`.
fn lookup_value<'a>(cfg: &'a Vec<(String, String)>, key: &str) -> (r: Option<&'a String>)
    ensures
        match lookup(cfg@, key@) {
            Some(v) => r is Some && r->0@ == v,
            None => r is None,
        },
{
    let wanted = String::from_str(key);
    let mut i: usize = 0;
    assert(cfg@.subrange(0, cfg@.len() as int) =~= cfg@);
    while i < cfg.len()
        invariant
            i <= cfg@.len(),
            wanted@ == key@,
            lookup(cfg@, key@) == lookup(cfg@.subrange(i as int, cfg@.len() as int), key@),
        decreases cfg@.len() - i,
    {
        assert(cfg@.subrange(i as int, cfg@.len() as int).drop_first() =~= cfg@.subrange(
            i + 1,
            cfg@.len() as int,
        ));
        assert(cfg@.subrange(i as int, cfg@.len() as int)[0] == cfg@[i as int]);
        if cfg[i].0 == wanted {
            return Some(&cfg[i].1);
        }
        i = i + 1;
    }
    None
}

impl UserConfiguration {
    /// The color set under `color_query`, or `fallback_color`.
    pub fn get_color_from_configuration(
        configuration: &Vec<(String, String)>,
        color_query: &str,
        fallback_color: PaletteColor,
    ) -> (r: PaletteColor)
        ensures
            r == color_setting(configuration@, color_query@, fallback_color),
    {
        if let Some(color_string) = lookup_value(configuration, color_query) {
            if let Some(color) = Self::str_to_palette_color(color_string.as_str()) {
                return color;
            }
        }
        fallback_color
    }

    /// The text set under `query`, or `fallback`.
    pub fn get_string_from_configuration(
        configuration: &Vec<(String, String)>,
        query: &str,
        fallback: &str,
    ) -> (r: String)
        ensures
            r@ == string_setting(configuration@, query@, fallback@),
    {
        match lookup_value(configuration, query) {
            Some(value) => value.clone(),
            None => String::from_str(fallback),
        }
    }

    /// The flag set under `query`, or `fallback`.
    pub fn get_bool_from_configuration(
        configuration: &Vec<(String, String)>,
        query: &str,
        fallback: bool,
    ) -> (r: bool)
        ensures
            r == bool_setting(configuration@, query@, fallback),
    {
        match lookup_value(configuration, query) {
            Some(value) => match parse_bool(value.as_str()) {
                Some(b) => b,
                None => fallback,
            },
            None => fallback,
        }
    }

    /// Resolves every setting from `configuration`, with the theme's colors,
    /// the name `tab`, a shown directory and each mode's initial where one is
    /// not set.
    pub fn populate_from_configuration(
        configuration: &Vec<(String, String)>,
        colors: &ThemePalette,
    ) -> (r: UserConfiguration)
        ensures
            r.wf(),
            forall|m: InputMode|
                #[trigger] r.mode_label(m) == string_setting(
                    configuration@,
                    label_key(m),
                    default_label(m),
                ),
            r.color_fg == color_setting(configuration@, "FgColor"@, colors.white),
            r.color_bg == color_setting(configuration@, "BgColor"@, colors.black),
            r.color_session_directory == color_setting(
                configuration@,
                "SessionDirectoryColor"@,
                colors.white,
            ),
            r.color_session_name == color_setting(configuration@, "SessionNameColor"@, colors.gray),
            r.color_tab == color_setting(configuration@, "TabColor"@, colors.gray),
            r.color_active_tab == color_setting(configuration@, "ActiveTabColor"@, colors.green),
            r.color_normal_mode == color_setting(configuration@, "NormalModeColor"@, colors.gold),
            r.color_other_modes == color_setting(configuration@, "OtherModesColor"@, colors.orange),
            r.color_others == color_setting(configuration@, "OthersColor"@, colors.orange),
            r.default_tab_name@ == string_setting(configuration@, "DefaultTabName"@, "tab"@),
            r.display_session_directory == bool_setting(
                configuration@,
                "DisplaySessionDirectory"@,
                true,
            ),
    {
        let mut mode_display: Vec<String> = Vec::new();
        let mut i: usize = 0;
        while i < MODE_COUNT
            invariant
                i <= MODE_COUNT,
                mode_display@.len() == i,
                forall|j: int|
                    0 <= j < i ==> (#[trigger] mode_display@[j])@ == string_setting(
                        configuration@,
                        label_key(mode_at(j as nat)),
                        default_label(mode_at(j as nat)),
                    ),
            decreases MODE_COUNT - i,
        {
            let mode = mode_of_index(i);
            let label = Self::get_string_from_configuration(
                configuration,
                label_key_of(mode),
                default_label_of(mode),
            );
            mode_display.push(label);
            i = i + 1;
        }
        assert forall|m: InputMode| mode_at(#[trigger] mode_slot(m)) == m by {}
        UserConfiguration {
            mode_display,
            color_fg: Self::get_color_from_configuration(configuration, "FgColor", colors.white),
            color_bg: Self::get_color_from_configuration(configuration, "BgColor", colors.black),
            color_session_directory: Self::get_color_from_configuration(
                configuration,
                "SessionDirectoryColor",
                colors.white,
            ),
            color_session_name: Self::get_color_from_configuration(
                configuration,
                "SessionNameColor",
                colors.gray,
            ),
            color_tab: Self::get_color_from_configuration(configuration, "TabColor", colors.gray),
            color_active_tab: Self::get_color_from_configuration(
                configuration,
                "ActiveTabColor",
                colors.green,
            ),
            color_normal_mode: Self::get_color_from_configuration(
                configuration,
                "NormalModeColor",
                colors.gold,
            ),
            color_other_modes: Self::get_color_from_configuration(
                configuration,
                "OtherModesColor",
                colors.orange,
            ),
            color_others: Self::get_color_from_configuration(
                configuration,
                "OthersColor",
                colors.orange,
            ),
            default_tab_name: Self::get_string_from_configuration(
                configuration,
                "DefaultTabName",
                "tab",
            ),
            display_session_directory: Self::get_bool_from_configuration(
                configuration,
                "DisplaySessionDirectory",
                true,
            ),
        }
    }
}

} // verus!
