use t1xr::regime::FlowStates;
use t1xr::search::{matches_search, search_key};
use t1xr::themes::{Rgb, Theme};

#[test]
fn regime_labels() {
    assert_eq!(FlowStates::Zen.label(), "calm");
    assert_eq!(FlowStates::Bliss.label(), "bullish");
    assert_eq!(FlowStates::Tumult.label(), "bearish");
    assert_eq!(FlowStates::Chaos.label(), "crash");
}

#[test]
fn theme_toggle_and_icons() {
    assert_eq!(Theme::default(), Theme::DarkMode);
    assert_eq!(Theme::DarkMode.toggle(), Theme::LightMode);
    assert_eq!(Theme::LightMode.toggle(), Theme::DarkMode);
    assert_eq!(Theme::DarkMode.toggle().toggle(), Theme::DarkMode);
    assert_eq!(Theme::DarkMode.icon(), "swap light");
    assert_eq!(Theme::LightMode.icon(), "swap dark");
}

#[test]
fn theme_palettes() {
    let d = Theme::DarkMode.palette();
    assert_eq!(d.panel_bg, Rgb { r: 11, g: 18, b: 11 });
    assert_eq!(d.accent, Rgb { r: 11, g: 234, b: 128 });
    assert_eq!(d.down, Rgb { r: 234, g: 77, b: 66 });
    let l = Theme::LightMode.palette();
    assert_eq!(l.panel_bg, Rgb { r: 234, g: 222, b: 207 });
    assert_eq!(l.grid, Rgb { r: 222, g: 207, b: 198 });
    assert_ne!(d, l);
}

#[test]
fn search_key_upper_cases_ascii_only() {
    assert_eq!(search_key("ab1z"), "AB1Z");
    assert_eq!(search_key(""), "");
    assert_eq!(search_key("éx"), "éX");
}

#[test]
fn search_matches_runs_of_characters() {
    assert!(matches_search("ABC", ""));
    assert!(matches_search("ABC", "BC"));
    assert!(matches_search("ABC", "ABC"));
    assert!(!matches_search("ABC", "CB"));
    assert!(!matches_search("AB", "ABC"));
    assert!(!matches_search("ABC", "abc"));
    assert!(matches_search("ABC", &search_key("abc")));
}
