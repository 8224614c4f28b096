use tabline::{
    render_line, render_tab, tab_line, tab_style, InputMode, LinePart, PaletteColor, TabInfo,
    ThemePalette, UserConfiguration,
};

fn theme() -> ThemePalette {
    ThemePalette {
        white: PaletteColor::EightBit(15),
        black: PaletteColor::EightBit(0),
        gray: PaletteColor::EightBit(8),
        green: PaletteColor::EightBit(2),
        gold: PaletteColor::EightBit(3),
        orange: PaletteColor::EightBit(208),
    }
}

fn config() -> UserConfiguration {
    UserConfiguration::populate_from_configuration(&Vec::new(), &theme())
}

fn tab(position: usize, name: &str, active: bool, sync: bool) -> TabInfo {
    TabInfo { position, name: name.to_string(), active, is_sync_panes_active: sync }
}

fn segments(tabs: &[TabInfo], cfg: &UserConfiguration) -> Vec<LinePart> {
    tabs.iter().map(|t| tab_style(t.name.clone(), t, cfg)).collect()
}

fn width(parts: &[LinePart]) -> usize {
    parts.iter().map(|p| p.len).sum()
}

#[test]
fn empty_name_falls_back_to_default_name() {
    let cfg = config();
    let t = tab(0, "", true, false);
    let part = render_tab(String::new(), &t, &cfg);
    assert_eq!(part.len, 6);
    assert_eq!(part.tab_index, Some(0));
    assert!(part.part.contains("1 tab "));
}

#[test]
fn generated_name_falls_back_to_default_name() {
    let cfg = config();
    let t = tab(2, "Tab #3", false, false);
    let part = render_tab("Tab #3".to_string(), &t, &cfg);
    assert!(part.part.contains(" 3 tab "));
    assert_eq!(part.len, 7);
    assert_eq!(part.tab_index, Some(2));
}

#[test]
fn other_generated_number_is_kept() {
    let cfg = config();
    let t = tab(2, "Tab #1", false, false);
    let part = render_tab("Tab #1".to_string(), &t, &cfg);
    assert!(part.part.contains(" 3 Tab #1 "));
    assert_eq!(part.len, 10);
}

#[test]
fn sync_suffix_is_added_before_padding() {
    let cfg = config();
    let t = tab(0, "work", false, true);
    let part = tab_style("work".to_string(), &t, &cfg);
    assert!(part.part.contains("1 work (Sync) "));
    assert_eq!(part.len, "1 work (Sync) ".len());
}

#[test]
fn sync_suffix_follows_default_name() {
    let cfg = config();
    let t = tab(0, "Tab #1", true, true);
    let part = tab_style("Tab #1".to_string(), &t, &cfg);
    assert_eq!(part.part, "\u{1b}[1;48;5;0;38;5;2m1 tab (Sync) \u{1b}[0m");
    assert_eq!(part.len, 13);
    let t = tab(0, "", false, true);
    let part = tab_style(String::new(), &t, &cfg);
    assert!(part.part.contains("1 tab (Sync) "));
    assert_eq!(part.len, 13);
}

#[test]
fn painted_text_is_exact() {
    let cfg = config();
    let t = tab(0, "", true, false);
    let part = render_tab(String::new(), &t, &cfg);
    assert_eq!(part.part, "\u{1b}[1;48;5;0;38;5;2m1 tab \u{1b}[0m");
}

#[test]
fn later_tabs_get_left_padding() {
    let cfg = config();
    let t = tab(9, "logs", false, false);
    let part = tab_style("logs".to_string(), &t, &cfg);
    assert!(part.part.contains(" 10 logs "));
    assert_eq!(part.len, 9);
    assert_eq!(part.tab_index, Some(9));
}

#[test]
fn segment_text_is_styled() {
    let cfg = config();
    let t = tab(0, "a", true, false);
    let part = tab_style("a".to_string(), &t, &cfg);
    assert_ne!(part.part, "1 a ");
    assert!(part.part.starts_with('\u{1b}'));
    assert_eq!(part.len, 4);
}

#[test]
fn active_and_inactive_tabs_differ_in_color() {
    let cfg = config();
    let a = tab_style("x".to_string(), &tab(0, "x", true, false), &cfg);
    let b = tab_style("x".to_string(), &tab(0, "x", false, false), &cfg);
    assert_ne!(a.part, b.part);
    assert_eq!(a.len, b.len);
}

#[test]
fn zero_budget_gives_empty_line() {
    let cfg = config();
    let tabs = vec![tab(0, "", true, false)];
    let parts = tab_line(
        Some("main".to_string()),
        segments(&tabs, &cfg),
        1,
        0,
        &cfg,
        InputMode::Normal,
        "proj".to_string(),
    );
    assert!(parts.is_empty());
    assert_eq!(render_line(&parts), "");
}

#[test]
fn no_tabs_gives_empty_line() {
    let cfg = config();
    let parts = tab_line(Some("s".to_string()), Vec::new(), 1, 80, &cfg, InputMode::Normal, String::new());
    assert!(parts.is_empty());
}

#[test]
fn wide_budget_shows_everything_right_aligned() {
    let cfg = config();
    let tabs = vec![tab(0, "a", true, false), tab(1, "b", false, false)];
    let parts = tab_line(
        Some("main".to_string()),
        segments(&tabs, &cfg),
        1,
        40,
        &cfg,
        InputMode::Normal,
        "proj".to_string(),
    );
    // session, directory, two tabs, spacer, badge
    assert_eq!(parts.len(), 6);
    assert_eq!(parts[0].len, 6);
    assert_eq!(parts[1].len, 5);
    assert_eq!(parts[2].tab_index, Some(0));
    assert_eq!(parts[3].tab_index, Some(1));
    assert_eq!(parts[5].len, 3);
    assert!(parts[5].part.contains(" N "));
    assert_eq!(width(&parts), 40);
    assert!(parts.iter().filter(|p| p.tab_index.is_none()).count() == 4);
}

#[test]
fn locked_mode_has_no_badge() {
    let cfg = config();
    let tabs = vec![tab(0, "a", true, false)];
    let parts = tab_line(None, segments(&tabs, &cfg), 1, 40, &cfg, InputMode::Locked, "d".to_string());
    assert_eq!(parts.len(), 1);
    assert_eq!(parts[0].tab_index, Some(0));
}

#[test]
fn directory_goes_first_then_session_then_badge() {
    let cfg = config();
    let tabs = vec![tab(0, "a", true, false)];
    // tab 4, session 6, directory 5, badge 3
    let run = |max: usize| {
        tab_line(
            Some("main".to_string()),
            segments(&tabs, &cfg),
            1,
            max,
            &cfg,
            InputMode::Pane,
            "proj".to_string(),
        )
    };
    assert_eq!(run(18).len(), 4);
    let no_dir = run(17);
    assert_eq!(no_dir.len(), 4);
    assert_eq!(no_dir[0].len, 6);
    assert_eq!(no_dir[1].tab_index, Some(0));
    let no_session = run(12);
    assert_eq!(no_session.len(), 3);
    assert_eq!(no_session[0].tab_index, Some(0));
    assert_eq!(width(&no_session), 12);
    let only_tab = run(6);
    assert_eq!(only_tab.len(), 1);
    assert_eq!(only_tab[0].tab_index, Some(0));
    assert!(run(3).is_empty());
}

#[test]
fn tabs_far_from_active_go_first() {
    let cfg = config();
    let tabs: Vec<TabInfo> = (0..5).map(|i| tab(i, "x", i == 2, false)).collect();
    // widths: 4, 5, 5, 5, 5
    let parts = tab_line(None, segments(&tabs, &cfg), 3, 15, &cfg, InputMode::Locked, String::new());
    let kept: Vec<Option<usize>> = parts.iter().map(|p| p.tab_index).collect();
    assert_eq!(kept, vec![Some(1), Some(2), Some(3)]);
    let parts = tab_line(None, segments(&tabs, &cfg), 3, 5, &cfg, InputMode::Locked, String::new());
    let kept: Vec<Option<usize>> = parts.iter().map(|p| p.tab_index).collect();
    assert_eq!(kept, vec![Some(2)]);
    let parts = tab_line(None, segments(&tabs, &cfg), 1, 9, &cfg, InputMode::Locked, String::new());
    let kept: Vec<Option<usize>> = parts.iter().map(|p| p.tab_index).collect();
    assert_eq!(kept, vec![Some(0), Some(1)]);
}

#[test]
fn total_width_never_exceeds_budget() {
    let cfg = config();
    let tabs: Vec<TabInfo> = (0..7).map(|i| tab(i, "name", i == 4, i % 2 == 0)).collect();
    for max in 0..120 {
        let parts = tab_line(
            Some("session".to_string()),
            segments(&tabs, &cfg),
            5,
            max,
            &cfg,
            InputMode::Tab,
            "dir".to_string(),
        );
        assert!(width(&parts) <= max);
    }
}

#[test]
fn active_tab_shown_when_all_tabs_fit() {
    let cfg = config();
    let tabs: Vec<TabInfo> = (0..4).map(|i| tab(i, "t", i == 3, false)).collect();
    let segs = segments(&tabs, &cfg);
    let all = width(&segs);
    let parts = tab_line(Some("s".to_string()), segs, 4, all, &cfg, InputMode::Normal, "d".to_string());
    let shown: Vec<usize> = parts.iter().filter_map(|p| p.tab_index).collect();
    assert_eq!(shown, vec![0, 1, 2, 3]);
    assert!(parts.iter().any(|p| p.tab_index.map(|i| i + 1) == Some(4)));
}

#[test]
fn composing_twice_gives_same_output() {
    let cfg = config();
    let tabs: Vec<TabInfo> = (0..3).map(|i| tab(i, "w", i == 1, false)).collect();
    let a = tab_line(Some("s".to_string()), segments(&tabs, &cfg), 2, 30, &cfg, InputMode::Scroll, "d".to_string());
    let b = tab_line(Some("s".to_string()), segments(&tabs, &cfg), 2, 30, &cfg, InputMode::Scroll, "d".to_string());
    assert_eq!(render_line(&a), render_line(&b));
    assert_eq!(a.len(), b.len());
    for (x, y) in a.iter().zip(b.iter()) {
        assert_eq!(x.part, y.part);
        assert_eq!(x.len, y.len);
        assert_eq!(x.tab_index, y.tab_index);
    }
}

#[test]
fn rendered_line_concatenates_parts() {
    let parts = vec![
        LinePart { part: "ab".to_string(), len: 2, tab_index: None },
        LinePart { part: "cde".to_string(), len: 3, tab_index: Some(0) },
    ];
    assert_eq!(render_line(&parts), "abcde");
}
