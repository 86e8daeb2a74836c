use cosmic_applet_window_list::config::Config;

#[test]
fn default_config_matches_documented_defaults() {
    let c = Config::default();
    assert!(!c.show_all_workspaces);
    assert_eq!(c.context_menu_text_limit, 25);
    assert!(c.pinned_apps.is_empty());
    assert!(c.expand_centered);
}
