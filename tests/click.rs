use tabline::{
    active_tab_index, background_fill, decimal, get_clicked_line_part, get_tab_to_focus,
    last_path_component, mode_index, render_bar, scroll_down_target, scroll_up_target,
    session_directory_name, sort_by_position, tab_segments, InputMode, LinePart, PaletteColor, TabInfo,
    ThemePalette, UserConfiguration,
};

fn seg(len: usize, tab_index: Option<usize>) -> LinePart {
    LinePart { part: " ".repeat(len), len, tab_index }
}

fn layout() -> Vec<LinePart> {
    vec![seg(5, None), seg(6, Some(0)), seg(6, Some(1))]
}

fn theme() -> ThemePalette {
    ThemePalette {
        white: PaletteColor::EightBit(15),
        black: PaletteColor::EightBit(0),
        gray: PaletteColor::EightBit(8),
        green: PaletteColor::EightBit(2),
        gold: PaletteColor::EightBit(3),
        orange: PaletteColor::EightBit(208),
    }
}

fn pairs(items: &[(&str, &str)]) -> Vec<(String, String)> {
    items.iter().map(|(k, v)| (k.to_string(), v.to_string())).collect()
}

#[test]
fn click_on_active_tab_does_nothing() {
    assert_eq!(get_tab_to_focus(&layout(), 1, 7), None);
}

#[test]
fn click_on_other_tab_switches() {
    assert_eq!(get_tab_to_focus(&layout(), 1, 12), Some(2));
    assert_eq!(get_tab_to_focus(&layout(), 2, 7), Some(1));
}

#[test]
fn click_on_decoration_does_nothing() {
    assert_eq!(get_tab_to_focus(&layout(), 1, 2), None);
}

#[test]
fn click_past_end_does_nothing() {
    assert_eq!(get_tab_to_focus(&layout(), 1, 17), None);
    assert_eq!(get_tab_to_focus(&layout(), 1, 1000), None);
    assert!(get_clicked_line_part(&layout(), 17).is_none());
}

#[test]
fn click_boundaries() {
    let l = layout();
    assert_eq!(get_clicked_line_part(&l, 4).unwrap().tab_index, None);
    assert_eq!(get_clicked_line_part(&l, 5).unwrap().tab_index, Some(0));
    assert_eq!(get_clicked_line_part(&l, 10).unwrap().tab_index, Some(0));
    assert_eq!(get_clicked_line_part(&l, 11).unwrap().tab_index, Some(1));
    assert_eq!(get_clicked_line_part(&l, 16).unwrap().tab_index, Some(1));
}

#[test]
fn every_column_of_a_tab_resolves_to_it() {
    let l = layout();
    for c in 5..11 {
        assert_eq!(get_tab_to_focus(&l, 2, c), Some(1));
    }
    for c in 11..17 {
        assert_eq!(get_tab_to_focus(&l, 1, c), Some(2));
    }
}

#[test]
fn zero_width_segments_are_never_hit() {
    let l = vec![seg(0, Some(0)), seg(3, Some(1))];
    assert_eq!(get_tab_to_focus(&l, 5, 0), Some(2));
}

#[test]
fn colors_parse() {
    assert_eq!(UserConfiguration::str_to_palette_color("7"), Some(PaletteColor::EightBit(7)));
    assert_eq!(UserConfiguration::str_to_palette_color("1,2,3"), Some(PaletteColor::Rgb(1, 2, 3)));
    assert_eq!(UserConfiguration::str_to_palette_color("a,5"), Some(PaletteColor::EightBit(5)));
    assert_eq!(UserConfiguration::str_to_palette_color("+9"), Some(PaletteColor::EightBit(9)));
    assert_eq!(UserConfiguration::str_to_palette_color("1,2"), None);
    assert_eq!(UserConfiguration::str_to_palette_color("300"), None);
    assert_eq!(UserConfiguration::str_to_palette_color(""), None);
    assert_eq!(UserConfiguration::str_to_palette_color("1,,2,3"), Some(PaletteColor::Rgb(1, 2, 3)));
    assert_eq!(UserConfiguration::str_to_palette_color(" 1"), None);
}

#[test]
fn settings_fall_back() {
    let cfg = pairs(&[("FgColor", "1,2,3"), ("BgColor", "nope"), ("DisplaySessionDirectory", "false")]);
    assert_eq!(
        UserConfiguration::get_color_from_configuration(&cfg, "FgColor", PaletteColor::EightBit(0)),
        PaletteColor::Rgb(1, 2, 3)
    );
    assert_eq!(
        UserConfiguration::get_color_from_configuration(&cfg, "BgColor", PaletteColor::EightBit(4)),
        PaletteColor::EightBit(4)
    );
    assert_eq!(
        UserConfiguration::get_color_from_configuration(&cfg, "Other", PaletteColor::EightBit(5)),
        PaletteColor::EightBit(5)
    );
    assert_eq!(UserConfiguration::get_string_from_configuration(&cfg, "FgColor", "x"), "1,2,3");
    assert_eq!(UserConfiguration::get_string_from_configuration(&cfg, "Missing", "x"), "x");
    assert!(!UserConfiguration::get_bool_from_configuration(&cfg, "DisplaySessionDirectory", true));
    assert!(UserConfiguration::get_bool_from_configuration(&cfg, "BgColor", true));
    assert!(!UserConfiguration::get_bool_from_configuration(&cfg, "Missing", false));
}

#[test]
fn populate_uses_defaults() {
    let c = UserConfiguration::populate_from_configuration(&Vec::new(), &theme());
    assert_eq!(c.default_tab_name, "tab");
    assert!(c.display_session_directory);
    assert_eq!(c.color_fg, PaletteColor::EightBit(15));
    assert_eq!(c.color_bg, PaletteColor::EightBit(0));
    assert_eq!(c.color_session_name, PaletteColor::EightBit(8));
    assert_eq!(c.color_active_tab, PaletteColor::EightBit(2));
    assert_eq!(c.color_normal_mode, PaletteColor::EightBit(3));
    assert_eq!(c.color_others, PaletteColor::EightBit(208));
    assert_eq!(c.mode_display[mode_index(InputMode::Normal)], "N");
    assert_eq!(c.mode_display[mode_index(InputMode::Locked)], "");
    assert_eq!(c.mode_display[mode_index(InputMode::EnterSearch)], "E");
    assert_eq!(c.mode_display[mode_index(InputMode::Tmux)], "T");
}

#[test]
fn populate_reads_settings() {
    let cfg = pairs(&[
        ("DefaultTabName", "new"),
        ("TabColor", "40"),
        ("LockedModeLabel", "LOCK"),
        ("DisplaySessionDirectory", "false"),
    ]);
    let c = UserConfiguration::populate_from_configuration(&cfg, &theme());
    assert_eq!(c.default_tab_name, "new");
    assert_eq!(c.color_tab, PaletteColor::EightBit(40));
    assert_eq!(c.mode_display[mode_index(InputMode::Locked)], "LOCK");
    assert!(!c.display_session_directory);
}

#[test]
fn active_index_is_one_based() {
    let tabs = vec![
        TabInfo { position: 0, name: "a".into(), active: false, is_sync_panes_active: false },
        TabInfo { position: 1, name: "b".into(), active: true, is_sync_panes_active: false },
    ];
    assert_eq!(active_tab_index(&tabs), Some(2));
    assert_eq!(active_tab_index(&Vec::new()), None);
}

#[test]
fn scrolling_is_clamped() {
    assert_eq!(scroll_up_target(2, 3), 3);
    assert_eq!(scroll_up_target(3, 3), 3);
    assert_eq!(scroll_down_target(2), 1);
    assert_eq!(scroll_down_target(1), 1);
    assert_eq!(scroll_down_target(0), 1);
}

#[test]
fn rename_prompt_replaces_empty_name() {
    let c = UserConfiguration::populate_from_configuration(&Vec::new(), &theme());
    let tabs = vec![TabInfo { position: 0, name: String::new(), active: true, is_sync_panes_active: false }];
    let parts = tab_segments(&tabs, InputMode::RenameTab, &c);
    assert!(parts[0].part.contains("1 Enter name... "));
    let parts = tab_segments(&tabs, InputMode::Normal, &c);
    assert!(parts[0].part.contains("1 tab "));
}

#[test]
fn bar_keeps_last_column_free() {
    let c = UserConfiguration::populate_from_configuration(&Vec::new(), &theme());
    let tabs = vec![TabInfo { position: 0, name: "a".into(), active: true, is_sync_panes_active: false }];
    let parts = render_bar(&tabs, Some("s".into()), false, InputMode::Normal, &c, "d".into(), 30);
    assert_eq!(parts.iter().map(|p| p.len).sum::<usize>(), 29);
    let hidden = render_bar(&tabs, Some("s".into()), true, InputMode::Normal, &c, "d".into(), 30);
    assert_eq!(hidden.len(), 3);
    assert_eq!(hidden[0].tab_index, Some(0));
    assert!(render_bar(&Vec::new(), None, false, InputMode::Normal, &c, String::new(), 30).is_empty());
}

#[test]
fn directory_name_from_pwd() {
    assert_eq!(session_directory_name("/home/user/project\n"), "project");
    assert_eq!(session_directory_name("  /\n"), "");
    assert_eq!(last_path_component("plain"), "plain");
    assert_eq!(last_path_component("a/b/"), "");
}

#[test]
fn fill_codes() {
    assert_eq!(background_fill(PaletteColor::Rgb(1, 20, 255)), "\u{1b}[48;2;1;20;255m\u{1b}[0K");
    assert_eq!(background_fill(PaletteColor::EightBit(0)), "\u{1b}[48;5;0m\u{1b}[0K");
}

#[test]
fn decimal_notation() {
    assert_eq!(decimal(0), "0");
    assert_eq!(decimal(1234567), "1234567");
    assert_eq!(decimal(usize::MAX), usize::MAX.to_string());
}

#[test]
fn bar_orders_tabs_by_position() {
    let c = UserConfiguration::populate_from_configuration(&Vec::new(), &theme());
    let tabs = vec![
        TabInfo { position: 1, name: "b".into(), active: true, is_sync_panes_active: false },
        TabInfo { position: 0, name: "a".into(), active: false, is_sync_panes_active: false },
    ];
    let parts = render_bar(&tabs, Some("s".into()), false, InputMode::Normal, &c, "d".into(), 80);
    let shown: Vec<usize> = parts.iter().filter_map(|p| p.tab_index).collect();
    assert_eq!(shown, vec![0, 1]);
    // only the active tab fits: it is the one kept
    let parts = render_bar(&tabs, Some("s".into()), false, InputMode::Normal, &c, "d".into(), 6);
    let shown: Vec<usize> = parts.iter().filter_map(|p| p.tab_index).collect();
    assert_eq!(shown, vec![1]);
}

#[test]
fn sorting_by_position_is_stable() {
    let t = |position: usize, name: &str| TabInfo {
        position,
        name: name.into(),
        active: false,
        is_sync_panes_active: false,
    };
    let sorted = sort_by_position(&vec![t(2, "c"), t(0, "a"), t(1, "b"), t(0, "z")]);
    let names: Vec<&str> = sorted.iter().map(|x| x.name.as_str()).collect();
    assert_eq!(names, vec!["a", "z", "b", "c"]);
    assert!(sort_by_position(&Vec::new()).is_empty());
}

#[test]
fn bar_is_empty_without_columns() {
    let c = UserConfiguration::populate_from_configuration(&Vec::new(), &theme());
    let tabs = vec![TabInfo { position: 0, name: "a".into(), active: true, is_sync_panes_active: false }];
    assert!(render_bar(&tabs, Some("s".into()), false, InputMode::Normal, &c, "d".into(), 1).is_empty());
    assert!(render_bar(&tabs, Some("s".into()), false, InputMode::Normal, &c, "d".into(), 0).is_empty());
}
