//! Tests of snapshot construction, its invariant checks, and path expansion.

use gtk_cursor_navigator::ConfigurationError;
use gtk_cursor_navigator::SelectedKeys;
use gtk_cursor_navigator::SharedData;
use gtk_cursor_navigator::codes_unique;
use gtk_cursor_navigator::conf::Conf;
use gtk_cursor_navigator::conf::ConfGrid;
use gtk_cursor_navigator::conf::expand_path;

fn conf_with_grid(rows: u8, columns: u8) -> Conf {
    let mut conf = Conf::default();
    conf.grid = ConfGrid { rows, columns, ..ConfGrid::default() };
    conf
}

#[test]
fn snapshot_holds_one_code_per_cell() {
    let keys = SelectedKeys::new("Q W", "E R");
    let sd = SharedData::new(conf_with_grid(2, 2), &keys).unwrap();
    assert_eq!(sd.tokens, vec!["QE", "QR", "WE", "WR"]);
    assert_eq!(sd.config.grid.rows, 2);
    assert_eq!(sd.config.grid.columns, 2);
}

#[test]
fn snapshot_rejects_empty_grid() {
    let keys = SelectedKeys::new("Q W", "E R");
    assert_eq!(
        SharedData::new(conf_with_grid(0, 5), &keys).unwrap_err(),
        ConfigurationError::InvalidGridDimensions
    );
    assert_eq!(
        SharedData::new(conf_with_grid(5, 0), &keys).unwrap_err(),
        ConfigurationError::InvalidGridDimensions
    );
}

#[test]
fn snapshot_rejects_too_small_code_space() {
    let keys = SelectedKeys::new("Q W", "E R");
    assert_eq!(
        SharedData::new(conf_with_grid(4, 4), &keys).unwrap_err(),
        ConfigurationError::InsufficientCodeSpace
    );
}

#[test]
fn snapshot_rejects_duplicate_codes() {
    // Overlapping key sets break disjointness and so produce duplicates.
    let keys = SelectedKeys::new("Q", "Q");
    assert_eq!(
        SharedData::new(conf_with_grid(1, 2), &keys).unwrap_err(),
        ConfigurationError::DuplicateCodes
    );
}

#[test]
fn codes_unique_detects_duplicates() {
    let unique: Vec<String> = vec!["QE".to_string(), "QR".to_string()];
    let duplicated: Vec<String> = vec!["QE".to_string(), "QR".to_string(), "QE".to_string()];
    assert!(codes_unique(&unique));
    assert!(!codes_unique(&duplicated));
}

#[test]
fn grid_defaults() {
    let grid = ConfGrid::default();
    assert_eq!(grid.rows, 30);
    assert_eq!(grid.columns, 40);
    assert_eq!(grid.width, 1920);
    assert_eq!(grid.height, 1080);
    assert!(grid.cover_screen);
    assert_eq!(grid.total_cells(), 1200);
}

#[test]
fn conf_defaults() {
    let conf = Conf::default();
    assert_eq!(conf.theme.background_color, "#282c34");
    assert_eq!(conf.theme.foreground_color, "#abb2bf");
    assert_eq!(conf.theme.line_pixel, 1);
    assert_eq!(conf.theme.font_weight, "Bold");
    assert_eq!(conf.theme.font_size, 16);
    assert_eq!(conf.reserved.left, 25);
    assert_eq!(conf.reserved.top, 0);
    assert_eq!(conf.shortcut.exit_key, 0xff1b);
}

#[test]
fn expand_path_with_home() {
    assert_eq!(expand_path("~/conf/app.toml", Some("/home/u")), "/home/u/conf/app.toml");
    assert_eq!(expand_path("~~//x", Some("/h")), "/h/x");
    assert_eq!(expand_path("~", Some("/h")), "/h/");
}

#[test]
fn expand_path_with_empty_home_stays_relative() {
    assert_eq!(expand_path("~/conf/app.toml", Some("")), "conf/app.toml");
    assert_eq!(expand_path("~", Some("")), "");
}

#[test]
fn expand_path_without_home_or_tilde() {
    assert_eq!(expand_path("~/conf", None), "~/conf");
    assert_eq!(expand_path("/etc/conf", Some("/home/u")), "/etc/conf");
    assert_eq!(expand_path("", Some("/home/u")), "");
}
