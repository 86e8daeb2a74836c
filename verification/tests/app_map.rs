use cosmic_applet_window_list::app_map::{
    derive_icon, get_app_info, parse_desktop_entry, read_desktop_entry, resolve_app_info, AppMap,
};

const FIREFOX: &str = "[Desktop Entry]\n\
Name=Firefox\n\
Exec=firefox %u\n\
Icon=firefox\n\
StartupWMClass=Firefox-ESR\n\
Actions=new-window;new-private-window;\n\
\n\
[Desktop Action new-window]\n\
Name=New Window\n\
Exec=firefox --new-window %u\n\
\n\
[Desktop Action new-private-window]\n\
Name=New Private Window\n\
Exec=firefox --private-window %u\n";

fn key(s: &str) -> String {
    s.to_string()
}

#[test]
fn entry_is_stored_under_stem_and_window_class() {
    let mut map = AppMap::new();
    parse_desktop_entry("/usr/share/applications/org.mozilla.Firefox.desktop", FIREFOX, &mut map);
    for k in ["org.mozilla.firefox", "firefox-esr"] {
        let info = map.get(&key(k)).expect("stored");
        assert_eq!(info.icon, "firefox");
        assert_eq!(info.main_exec.as_deref(), Some("firefox %u"));
        assert_eq!(info.actions.len(), 2);
        assert_eq!(info.actions[0].name, "New Window");
        assert_eq!(info.actions[0].command, "firefox --new-window %u");
        assert_eq!(info.actions[1].name, "New Private Window");
        assert_eq!(info.actions[1].command, "firefox --private-window %u");
    }
    assert!(map.get(&key("org.mozilla.Firefox")).is_none());
}

#[test]
fn app_id_finds_read_entry() {
    let mut map = AppMap::new();
    parse_desktop_entry("/usr/share/applications/org.mozilla.Firefox.desktop", FIREFOX, &mut map);
    let by_stem = get_app_info("org.mozilla.FIREFOX", &map);
    assert_eq!(by_stem.icon, "firefox");
    assert_eq!(by_stem.actions.len(), 2);
    let by_class = get_app_info("Firefox-ESR", &map);
    assert_eq!(by_class.icon, "firefox");
    assert_eq!(by_class.main_exec.as_deref(), Some("firefox %u"));
}

#[test]
fn entry_without_icon_is_ignored() {
    let mut map = AppMap::new();
    parse_desktop_entry("/x/app.desktop", "[Desktop Entry]\nName=App\nExec=app\n", &mut map);
    assert!(map.get(&key("app")).is_none());
}

#[test]
fn entry_keeps_other_keys() {
    let mut map = AppMap::new();
    parse_desktop_entry("/x/one.desktop", "Icon=one-icon\n", &mut map);
    parse_desktop_entry("/x/two.desktop", "Icon=two-icon\n", &mut map);
    assert_eq!(map.get(&key("one")).unwrap().icon, "one-icon");
    assert_eq!(map.get(&key("two")).unwrap().icon, "two-icon");
    parse_desktop_entry("/x/one.desktop", "Icon=newer\n", &mut map);
    assert_eq!(map.get(&key("one")).unwrap().icon, "newer");
    assert_eq!(map.get(&key("two")).unwrap().icon, "two-icon");
}

#[test]
fn actions_need_name_and_command() {
    let content = "Icon=x\nActions=a; b ;c;;missing;\n\
[Desktop Action a]\nName=A\nExec=run-a\n\
[Desktop Action b]\nName=B\n\
[Desktop Action c]\nExec=run-c\n";
    let mut map = AppMap::new();
    parse_desktop_entry("/p/app.desktop", content, &mut map);
    let info = map.get(&key("app")).unwrap();
    assert_eq!(info.actions.len(), 1);
    assert_eq!(info.actions[0].name, "A");
    assert_eq!(info.actions[0].command, "run-a");
}

#[test]
fn actions_follow_the_listed_order() {
    let content = "Icon=x\nActions=second;first\n\
[Desktop Action first]\nName=First\nExec=1\n\
[Desktop Action second]\nName=Second\nExec=2\n";
    let mut map = AppMap::new();
    parse_desktop_entry("/p/app.desktop", content, &mut map);
    let info = map.get(&key("app")).unwrap();
    let names: Vec<&str> = info.actions.iter().map(|a| a.name.as_str()).collect();
    assert_eq!(names, vec!["Second", "First"]);
}

#[test]
fn keys_inside_action_groups_do_not_touch_the_entry() {
    let content = "[Desktop Action a]\nIcon=wrong\nExec=run-a\nName=A\n\
[Desktop Entry]\nIcon=right\nActions=a\nExec=main\n";
    let mut map = AppMap::new();
    parse_desktop_entry("/p/app.desktop", content, &mut map);
    let info = map.get(&key("app")).unwrap();
    assert_eq!(info.icon, "right");
    assert_eq!(info.main_exec.as_deref(), Some("main"));
    assert_eq!(info.actions.len(), 1);
    assert_eq!(info.actions[0].command, "run-a");
}

#[test]
fn repeated_action_group_starts_afresh() {
    let content = "Icon=x\nActions=a\n\
[Desktop Action a]\nName=A\nExec=run-a\n\
[Desktop Action a]\nName=A again\n";
    let mut map = AppMap::new();
    parse_desktop_entry("/p/app.desktop", content, &mut map);
    assert_eq!(map.get(&key("app")).unwrap().actions.len(), 0);
}

#[test]
fn lines_and_values_are_trimmed() {
    let content = "  Icon=  spaced-icon \t\r\n\tExec= run  \r\nStartupWMClass=  Class \n";
    let mut map = AppMap::new();
    parse_desktop_entry("/p/App.desktop", content, &mut map);
    let info = map.get(&key("app")).unwrap();
    assert_eq!(info.icon, "spaced-icon");
    assert_eq!(info.main_exec.as_deref(), Some("run"));
    assert!(map.get(&key("class")).is_some());
}

#[test]
fn later_keys_win() {
    let mut map = AppMap::new();
    parse_desktop_entry("/p/app.desktop", "Icon=first\nIcon=second", &mut map);
    assert_eq!(map.get(&key("app")).unwrap().icon, "second");
}

#[test]
fn path_without_stem_uses_empty_key() {
    let mut map = AppMap::new();
    parse_desktop_entry("", "Icon=i\n", &mut map);
    assert_eq!(map.get(&key("")).unwrap().icon, "i");
}

#[test]
fn empty_app_id_gets_generic_icon() {
    let map = AppMap::new();
    let info = get_app_info("", &map);
    assert_eq!(info.icon, "application-x-executable-symbolic");
    assert!(info.main_exec.is_none());
    assert!(info.actions.is_empty());
}

#[test]
fn absolute_path_uses_lowercase_binary_name() {
    let map = AppMap::new();
    assert_eq!(get_app_info("/usr/bin/MyTool", &map).icon, "mytool");
    assert_eq!(get_app_info("/opt/a.b/Tool", &map).icon, "tool");
}

#[test]
fn reverse_dns_uses_last_segment_when_long_enough() {
    let map = AppMap::new();
    assert_eq!(get_app_info("io.github.SomeApp", &map).icon, "someapp");
    assert_eq!(get_app_info("org.gnome.Foo", &map).icon, "org.gnome.foo");
    assert_eq!(get_app_info("org.gnome.Fooo", &map).icon, "fooo");
    // the length is counted in bytes: two two-byte characters are enough
    assert_eq!(get_app_info("org.x.éé", &map).icon, "éé");
}

#[test]
fn plain_id_is_lowercased() {
    let map = AppMap::new();
    let info = get_app_info("Alacritty", &map);
    assert_eq!(info.icon, "alacritty");
    assert!(info.actions.is_empty());
}

#[test]
fn read_entry_keeps_window_class_as_written() {
    let (info, class) = read_desktop_entry(FIREFOX).expect("entry with icon");
    assert_eq!(info.icon, "firefox");
    assert_eq!(class.as_deref(), Some("Firefox-ESR"));
    assert!(read_desktop_entry("Name=No icon\n").is_none());
    let (_, class) = read_desktop_entry("Icon=i").unwrap();
    assert!(class.is_none());
}

#[test]
fn resolve_uses_the_given_lowercase_form() {
    let mut map = AppMap::new();
    parse_desktop_entry("/p/known.desktop", "Icon=known-icon\n", &mut map);
    // the lookup goes by the lowercase form handed in
    assert_eq!(resolve_app_info("Anything", "known".to_string(), &map).icon, "known-icon");
    assert_eq!(resolve_app_info("x", "a.b.longer".to_string(), &map).icon, "longer");
    assert_eq!(resolve_app_info("", "known".to_string(), &map).icon, "application-x-executable-symbolic");
    assert_eq!(derive_icon("org.Foo.Bar", "org.foo.bar".to_string()), "org.foo.bar");
    assert_eq!(derive_icon("/bin/ZSH", "/bin/zsh".to_string()), "zsh");
    assert_eq!(derive_icon("plain", "given".to_string()), "given");
}

#[test]
fn unicode_whitespace_is_trimmed_from_values() {
    let content = "Icon=\u{3000}wide-icon\u{a0}\nExec=\u{2003}run\u{85}\n";
    let mut map = AppMap::new();
    parse_desktop_entry("/p/app.desktop", content, &mut map);
    let info = map.get(&key("app")).unwrap();
    assert_eq!(info.icon, "wide-icon");
    assert_eq!(info.main_exec.as_deref(), Some("run"));
}

#[test]
fn ids_differing_in_ascii_case_resolve_alike() {
    let mut map = AppMap::new();
    parse_desktop_entry("/usr/share/applications/org.mozilla.Firefox.desktop", FIREFOX, &mut map);
    for id in ["org.mozilla.firefox", "ORG.MOZILLA.FIREFOX", "Org.Mozilla.FireFox"] {
        let info = get_app_info(id, &map);
        assert_eq!(info.icon, "firefox");
        assert_eq!(info.main_exec.as_deref(), Some("firefox %u"));
        assert_eq!(info.actions.len(), 2);
    }
    for id in ["/usr/bin/Tool", "/usr/bin/TOOL", "/usr/bin/tool"] {
        assert_eq!(get_app_info(id, &map).icon, "tool");
    }
    for id in ["Com.Example.Viewer", "com.example.VIEWER"] {
        assert_eq!(get_app_info(id, &map).icon, "viewer");
    }
}
