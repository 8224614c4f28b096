//! A single-line tab bar: building one styled segment per tab, fitting the
//! segments and the session and mode decorations into a column budget, and
//! mapping a clicked column back to the tab that it shows.

pub mod click;
pub mod config;
pub mod line;
pub mod model;
pub mod paint;
pub mod state;
pub mod tab;
pub mod text;

pub use model::{InputMode, LinePart, PaletteColor, SegmentView, TabInfo};
pub use text::decimal;
pub use config::{mode_index, ThemePalette, UserConfiguration, MODE_COUNT};
pub use tab::{render_tab, tab_style};
pub use line::{render_line, tab_line, LinePlan};
pub use click::{get_clicked_line_part, get_tab_to_focus};
pub use state::{active_tab_index, background_fill, last_path_component, render_bar, session_directory_name, scroll_down_target, scroll_up_target, sort_by_position, tab_segments};
