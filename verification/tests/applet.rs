use cosmic_applet_window_list::app_map::{parse_desktop_entry, AppMap};
use cosmic_applet_window_list::applet::{
    display_title, get_app_info, resolve_window_app_info, AppAction, AppletState, Effect, ListKind, MenuEntry, Message,
    ToplevelRequest, ToplevelUpdate, WaylandRequest, WaylandUpdate, WindowAction, WindowInfo,
};
use cosmic_applet_window_list::config::Config;

fn info(app_id: &str, title: &str, workspace: &[u64]) -> WindowInfo {
    WindowInfo {
        app_id: app_id.to_string(),
        title: title.to_string(),
        workspace: workspace.to_vec(),
        activated: false,
    }
}

fn add(s: &mut AppletState, app_id: &str, title: &str, handle: u64) -> Effect {
    s.update(Message::WaylandUpdate(WaylandUpdate::Toplevel(ToplevelUpdate::Add(info(app_id, title, &[]), handle))))
}

fn ids(s: &AppletState) -> Vec<(usize, u64)> {
    s.windows.iter().map(|w| (w.id, w.handle)).collect()
}

fn connected() -> AppletState {
    let mut s = AppletState::new(Config::default());
    s.update(Message::WaylandUpdate(WaylandUpdate::Init));
    s
}

fn sent(e: &Effect) -> Vec<WaylandRequest> {
    match e {
        Effect::Send(v) => v.clone(),
        _ => Vec::new(),
    }
}

#[test]
fn new_windows_get_increasing_ids() {
    let mut s = connected();
    add(&mut s, "a", "A", 10);
    add(&mut s, "b", "B", 20);
    assert_eq!(ids(&s), vec![(0, 10), (1, 20)]);
    assert_eq!(s.next_id, 2);
}

#[test]
fn adding_a_known_handle_changes_nothing() {
    let mut s = connected();
    add(&mut s, "a", "A", 10);
    add(&mut s, "other", "Other", 10);
    assert_eq!(ids(&s), vec![(0, 10)]);
    assert_eq!(s.windows[0].info.app_id, "a");
    assert_eq!(s.next_id, 1);
}

#[test]
fn update_keeps_the_id_and_replaces_the_info() {
    let mut s = connected();
    add(&mut s, "a", "A", 10);
    add(&mut s, "b", "B", 20);
    s.update(Message::WaylandUpdate(WaylandUpdate::Toplevel(ToplevelUpdate::Update(info("a", "A2", &[3]), 10))));
    assert_eq!(ids(&s), vec![(0, 10), (1, 20)]);
    assert_eq!(s.windows[0].info.title, "A2");
    assert_eq!(s.windows[0].info.workspace, vec![3]);
    // an update for an unknown handle adds the window
    s.update(Message::WaylandUpdate(WaylandUpdate::Toplevel(ToplevelUpdate::Update(info("c", "C", &[]), 30))));
    assert_eq!(ids(&s), vec![(0, 10), (1, 20), (2, 30)]);
}

#[test]
fn add_then_remove_restores_the_list() {
    let mut s = connected();
    add(&mut s, "a", "A", 10);
    add(&mut s, "b", "B", 20);
    let before = ids(&s);
    add(&mut s, "c", "C", 30);
    s.update(Message::WaylandUpdate(WaylandUpdate::Toplevel(ToplevelUpdate::Remove(30))));
    assert_eq!(ids(&s), before);
    // ids are not reused
    add(&mut s, "d", "D", 40);
    assert_eq!(ids(&s), vec![(0, 10), (1, 20), (3, 40)]);
}

#[test]
fn remove_drops_only_that_handle() {
    let mut s = connected();
    add(&mut s, "a", "A", 10);
    add(&mut s, "b", "B", 20);
    add(&mut s, "c", "C", 30);
    s.update(Message::WaylandUpdate(WaylandUpdate::Toplevel(ToplevelUpdate::Remove(20))));
    assert_eq!(ids(&s), vec![(0, 10), (2, 30)]);
    s.update(Message::WaylandUpdate(WaylandUpdate::Toplevel(ToplevelUpdate::Remove(99))));
    assert_eq!(ids(&s), vec![(0, 10), (2, 30)]);
}

#[test]
fn finished_connection_clears_windows() {
    let mut s = connected();
    add(&mut s, "a", "A", 10);
    assert_eq!(s.list_kind(), ListKind::Windows);
    s.update(Message::WaylandUpdate(WaylandUpdate::Finished));
    assert!(s.windows.is_empty());
    assert!(s.connection_finished);
    assert_eq!(s.list_kind(), ListKind::ConnectionLost);
    s.update(Message::WaylandUpdate(WaylandUpdate::Init));
    assert!(!s.connection_finished);
    assert_eq!(s.list_kind(), ListKind::Empty);
}

#[test]
fn activate_and_close_send_requests_when_connected() {
    let mut s = AppletState::new(Config::default());
    add(&mut s, "a", "A", 10);
    assert!(matches!(s.update(Message::Activate(0)), Effect::Nothing));
    s.update(Message::WaylandUpdate(WaylandUpdate::Init));
    let e = s.update(Message::Activate(0));
    assert_eq!(sent(&e), vec![WaylandRequest::Toplevel(ToplevelRequest::Activate(10))]);
    let e = s.update(Message::ActivateWindow(0));
    assert_eq!(sent(&e), vec![WaylandRequest::Toplevel(ToplevelRequest::Activate(10))]);
    let e = s.update(Message::Close(0));
    assert_eq!(sent(&e), vec![WaylandRequest::Toplevel(ToplevelRequest::Quit(10))]);
    assert!(matches!(s.update(Message::Close(5)), Effect::Nothing));
}

#[test]
fn close_all_quits_every_window_of_the_app() {
    let mut s = connected();
    add(&mut s, "term", "T1", 10);
    add(&mut s, "web", "W", 20);
    add(&mut s, "term", "T2", 30);
    let e = s.update(Message::CloseAll(2));
    assert_eq!(
        sent(&e),
        vec![
            WaylandRequest::Toplevel(ToplevelRequest::Quit(10)),
            WaylandRequest::Toplevel(ToplevelRequest::Quit(30)),
        ]
    );
    assert!(matches!(s.update(Message::CloseAll(9)), Effect::Nothing));
}

fn pinned(s: &AppletState) -> Vec<String> {
    s.config.pinned_apps.clone()
}

#[test]
fn pin_adds_the_app_once_and_keeps_earlier_entries() {
    let mut s = connected();
    add(&mut s, "term", "T1", 10);
    add(&mut s, "web", "W", 20);
    assert!(matches!(s.update(Message::Pin(1)), Effect::SaveConfig));
    assert!(matches!(s.update(Message::Pin(0)), Effect::SaveConfig));
    assert!(matches!(s.update(Message::Pin(0)), Effect::SaveConfig));
    assert_eq!(pinned(&s), vec!["web", "term"]);
    assert!(matches!(s.update(Message::Pin(3)), Effect::Nothing));
    assert_eq!(pinned(&s), vec!["web", "term"]);
}

#[test]
fn unpin_removes_only_that_app() {
    let mut s = connected();
    add(&mut s, "term", "T1", 10);
    add(&mut s, "web", "W", 20);
    s.update(Message::Pin(0));
    s.update(Message::Pin(1));
    assert!(matches!(s.update(Message::Unpin(0)), Effect::SaveConfig));
    assert_eq!(pinned(&s), vec!["web"]);
    assert!(matches!(s.update(Message::Unpin(7)), Effect::Nothing));
    assert!(matches!(s.update(Message::UnpinPinned(0)), Effect::SaveConfig));
    assert!(pinned(&s).is_empty());
    assert!(matches!(s.update(Message::UnpinPinned(0)), Effect::Nothing));
}

#[test]
fn pinned_app_stays_visible_after_its_window_closes() {
    let mut s = connected();
    add(&mut s, "term", "T1", 10);
    s.update(Message::Pin(0));
    assert!(s.pinned_items().is_empty());
    s.update(Message::WaylandUpdate(WaylandUpdate::Toplevel(ToplevelUpdate::Remove(10))));
    assert!(s.shown_windows().is_empty());
    assert_eq!(s.pinned_items(), vec![0]);
    assert_eq!(s.list_kind(), ListKind::Windows);
    let menu = s.pinned_menu(0);
    assert_eq!(labels(&menu), vec!["Unpin from app tray"]);
    assert!(matches!(menu[0], MenuEntry::Button(_, WindowAction::UnpinPinned(0))));
}

#[test]
fn pinned_app_with_only_hidden_windows_is_a_pinned_item() {
    let mut s = connected();
    s.update(Message::WaylandUpdate(WaylandUpdate::Workspace(vec![1])));
    s.update(Message::WaylandUpdate(WaylandUpdate::Toplevel(ToplevelUpdate::Add(info("term", "T", &[2]), 10))));
    s.update(Message::Pin(0));
    assert!(s.shown_windows().is_empty());
    assert_eq!(s.pinned_items(), vec![0]);
}

#[test]
fn launching_a_pinned_app_runs_its_main_command() {
    let mut map = AppMap::new();
    parse_desktop_entry("/a/term.desktop", "Icon=term\nExec=term --login %U\n", &mut map);
    let mut s = connected();
    s.update(Message::AppMapLoaded(map));
    add(&mut s, "Term", "T", 10);
    s.update(Message::Pin(0));
    match s.update(Message::LaunchPinned(0)) {
        Effect::SpawnShell(cmd) => assert_eq!(cmd, "term --login "),
        other => panic!("{other:?}"),
    }
    assert!(matches!(s.update(Message::LaunchPinned(1)), Effect::Nothing));
    add(&mut s, "unknown", "U", 20);
    s.update(Message::Pin(1));
    assert!(matches!(s.update(Message::LaunchPinned(1)), Effect::Nothing));
}

#[test]
fn toggling_workspaces_flips_the_filter() {
    let mut s = connected();
    assert!(!s.config.show_all_workspaces);
    assert!(matches!(s.update(Message::ToggleAllWorkspaces), Effect::SaveConfig));
    assert!(s.config.show_all_workspaces);
    s.update(Message::ToggleAllWorkspaces);
    assert!(!s.config.show_all_workspaces);
}

#[test]
fn known_handle_is_updated_even_at_the_last_id() {
    let mut s = connected();
    add(&mut s, "a", "A", 10);
    s.next_id = usize::MAX;
    s.update(Message::WaylandUpdate(WaylandUpdate::Toplevel(ToplevelUpdate::Update(info("a", "A2", &[]), 10))));
    add(&mut s, "a", "A3", 10);
    assert_eq!(s.windows[0].info.title, "A2");
}

#[test]
fn activation_is_kept_with_the_window() {
    let mut s = connected();
    let mut i = info("a", "A", &[]);
    i.activated = true;
    s.update(Message::WaylandUpdate(WaylandUpdate::Toplevel(ToplevelUpdate::Add(i, 10))));
    assert!(s.windows[0].info.activated);
    s.update(Message::WaylandUpdate(WaylandUpdate::Toplevel(ToplevelUpdate::Update(info("a", "A", &[]), 10))));
    assert!(!s.windows[0].info.activated);
}

#[test]
fn spawn_runs_the_stripped_action_command() {
    let mut map = AppMap::new();
    parse_desktop_entry(
        "/a/term.desktop",
        "Icon=term\nActions=new\n[Desktop Action new]\nName=New Window\nExec=term --new %U\n",
        &mut map,
    );
    let mut s = connected();
    s.update(Message::AppMapLoaded(map));
    add(&mut s, "Term", "T", 10);
    match s.update(Message::Spawn(0, 0)) {
        Effect::SpawnShell(cmd) => assert_eq!(cmd, "term --new "),
        other => panic!("{other:?}"),
    }
    assert!(matches!(s.update(Message::Spawn(0, 1)), Effect::Nothing));
    assert!(matches!(s.update(Message::Spawn(1, 0)), Effect::Nothing));
}

#[test]
fn settings_and_about_run_cosmic_settings() {
    let mut s = AppletState::new(Config::default());
    match s.update(Message::OpenSettings) {
        Effect::RunCosmicSettings(arg) => assert_eq!(arg, "panel-applet"),
        other => panic!("{other:?}"),
    }
    match s.update(Message::OpenAbout) {
        Effect::RunCosmicSettings(arg) => assert_eq!(arg, "about"),
        other => panic!("{other:?}"),
    }
}

#[test]
fn config_and_workspaces_are_replaced() {
    let mut s = connected();
    let mut c = Config::default();
    c.show_all_workspaces = true;
    s.update(Message::ConfigChanged(c));
    assert!(s.config.show_all_workspaces);
    s.update(Message::WaylandUpdate(WaylandUpdate::Workspace(vec![4, 5])));
    assert_eq!(s.active_workspaces, vec![4, 5]);
}

#[test]
fn only_windows_on_active_workspaces_are_shown() {
    let mut s = connected();
    s.update(Message::WaylandUpdate(WaylandUpdate::Workspace(vec![1])));
    s.update(Message::WaylandUpdate(WaylandUpdate::Toplevel(ToplevelUpdate::Add(info("a", "A", &[1]), 10))));
    s.update(Message::WaylandUpdate(WaylandUpdate::Toplevel(ToplevelUpdate::Add(info("b", "B", &[2]), 20))));
    s.update(Message::WaylandUpdate(WaylandUpdate::Toplevel(ToplevelUpdate::Add(info("c", "C", &[]), 30))));
    s.update(Message::WaylandUpdate(WaylandUpdate::Toplevel(ToplevelUpdate::Add(info("d", "D", &[2, 1]), 40))));
    assert_eq!(s.shown_windows(), vec![0, 2, 3]);
    let mut c = Config::default();
    c.show_all_workspaces = true;
    s.update(Message::ConfigChanged(c));
    assert_eq!(s.shown_windows(), vec![0, 1, 2, 3]);
}

#[test]
fn list_is_empty_when_nothing_is_shown() {
    let mut s = connected();
    s.update(Message::WaylandUpdate(WaylandUpdate::Workspace(vec![1])));
    s.update(Message::WaylandUpdate(WaylandUpdate::Toplevel(ToplevelUpdate::Add(info("b", "B", &[2]), 20))));
    assert_eq!(s.list_kind(), ListKind::Empty);
}

fn labels(menu: &[MenuEntry]) -> Vec<String> {
    menu.iter()
        .map(|e| match e {
            MenuEntry::Button(label, _) => label.clone(),
            MenuEntry::Divider => "--".to_string(),
        })
        .collect()
}

#[test]
fn menu_of_a_single_window() {
    let mut s = connected();
    add(&mut s, "web", "", 10);
    let menu = s.window_menu(0);
    assert_eq!(
        labels(&menu),
        vec!["Untitled", "--", "Pin to app tray", "Show all workspaces", "--", "Quit"]
    );
    assert!(matches!(menu[0], MenuEntry::Button(_, WindowAction::ActivateWindow(0))));
    assert!(matches!(menu[2], MenuEntry::Button(_, WindowAction::Pin(0))));
    assert!(matches!(menu[3], MenuEntry::Button(_, WindowAction::ToggleAllWorkspaces)));
    assert!(matches!(menu[5], MenuEntry::Button(_, WindowAction::Close(0))));
    s.update(Message::Pin(0));
    s.update(Message::ToggleAllWorkspaces);
    let menu = s.window_menu(0);
    assert_eq!(
        labels(&menu),
        vec!["Untitled", "--", "Unpin from app tray", "Show current workspace only", "--", "Quit"]
    );
    assert!(matches!(menu[2], MenuEntry::Button(_, WindowAction::Unpin(0))));
}

#[test]
fn menu_lists_actions_and_windows_of_the_same_app() {
    let mut map = AppMap::new();
    parse_desktop_entry(
        "/a/term.desktop",
        "Icon=term\nActions=new;tab\n[Desktop Action new]\nName=A rather long action name\nExec=t\n[Desktop Action tab]\nName=Tab\nExec=t --tab\n",
        &mut map,
    );
    let mut s = connected();
    s.update(Message::AppMapLoaded(map));
    let mut c = Config::default();
    c.context_menu_text_limit = 6;
    s.update(Message::ConfigChanged(c));
    add(&mut s, "term", "first terminal", 10);
    add(&mut s, "web", "W", 20);
    add(&mut s, "term", "T2", 30);
    let menu = s.window_menu(2);
    assert_eq!(
        labels(&menu),
        vec![
            "A r...",
            "Tab",
            "--",
            "fir...",
            "T2",
            "--",
            "Pin to app tray",
            "Show all workspaces",
            "--",
            "Quit All"
        ]
    );
    assert!(matches!(menu[0], MenuEntry::Button(_, WindowAction::Spawn(2, 0))));
    assert!(matches!(menu[1], MenuEntry::Button(_, WindowAction::Spawn(2, 1))));
    assert!(matches!(menu[3], MenuEntry::Button(_, WindowAction::ActivateWindow(0))));
    assert!(matches!(menu[4], MenuEntry::Button(_, WindowAction::ActivateWindow(2))));
    assert!(matches!(menu[9], MenuEntry::Button(_, WindowAction::CloseAll(2))));
}

#[test]
fn menu_actions_send_their_messages() {
    assert!(matches!(WindowAction::Close(3).message(), Message::Close(3)));
    assert!(matches!(WindowAction::CloseAll(3).message(), Message::CloseAll(3)));
    assert!(matches!(WindowAction::ActivateWindow(3).message(), Message::Activate(3)));
    assert!(matches!(WindowAction::Pin(3).message(), Message::Pin(3)));
    assert!(matches!(WindowAction::Spawn(3, 4).message(), Message::Spawn(3, 4)));
    assert!(matches!(WindowAction::Unpin(3).message(), Message::Unpin(3)));
    assert!(matches!(WindowAction::ToggleAllWorkspaces.message(), Message::ToggleAllWorkspaces));
    assert!(matches!(WindowAction::LaunchPinned(2).message(), Message::LaunchPinned(2)));
    assert!(matches!(WindowAction::UnpinPinned(2).message(), Message::UnpinPinned(2)));
    assert!(matches!(AppAction::About.message(), Message::OpenAbout));
    assert!(matches!(AppAction::Settings.message(), Message::OpenSettings));
}

#[test]
fn display_title_names_untitled_windows() {
    assert_eq!(display_title(""), "Untitled");
    assert_eq!(display_title("Editor"), "Editor");
}

#[test]
fn window_without_app_id_guesses_from_title() {
    let map = AppMap::new();
    assert_eq!(get_app_info("", "IntelliJ IDEA - project", &map).icon, "intellij-idea");
    assert_eq!(get_app_info("", "my Idea", &map).icon, "intellij-idea");
    assert_eq!(get_app_info("", "Zen", &map).icon, "zen-browser");
    assert_eq!(get_app_info("", "System Settings", &map).icon, "com.system76.CosmicSettings");
    assert_eq!(get_app_info("", "xterm", &map).icon, "application-x-executable-symbolic");
}

#[test]
fn known_apps_get_their_icons() {
    let map = AppMap::new();
    assert_eq!(get_app_info("com.system76.cosmic-settings", "", &map).icon, "com.system76.CosmicSettings");
    assert_eq!(get_app_info("x", "COSMIC Settings", &map).icon, "com.system76.CosmicSettings");
    assert_eq!(get_app_info("jetbrains-idea-ce", "", &map).icon, "intellij-idea");
    assert_eq!(get_app_info("Zen", "", &map).icon, "zen-browser");
    assert_eq!(get_app_info("app.zen-browser.zen", "", &map).icon, "zen-browser");
    assert_eq!(get_app_info("x", "Zen Browser", &map).icon, "zen-browser");
    assert_eq!(get_app_info("Alacritty", "", &map).icon, "alacritty");
    assert_eq!(get_app_info("/usr/bin/Foot", "", &map).icon, "foot");
    assert_eq!(get_app_info("org.gnome.Nautilus", "", &map).icon, "nautilus");
    assert_eq!(get_app_info("org.gnome.Foo", "", &map).icon, "org.gnome.foo");
    assert_eq!(get_app_info("Kitty", "", &map).icon, "kitty");
}

#[test]
fn desktop_entry_wins_over_guesses() {
    let mut map = AppMap::new();
    parse_desktop_entry("/a/alacritty.desktop", "Icon=Alacritty-Custom\n", &mut map);
    let info = get_app_info("Alacritty", "", &map);
    assert_eq!(info.icon, "Alacritty-Custom");
    assert!(info.actions.is_empty());
}

#[test]
fn resolve_window_uses_the_given_lowercase_forms() {
    let map = AppMap::new();
    assert_eq!(
        resolve_window_app_info("X", "alacritty".to_string(), "".to_string(), &map).icon,
        "alacritty"
    );
    assert_eq!(
        resolve_window_app_info("", "".to_string(), "zen".to_string(), &map).icon,
        "zen-browser"
    );
    assert_eq!(
        resolve_window_app_info("Y", "y".to_string(), "intellij".to_string(), &map).icon,
        "intellij-idea"
    );
}

#[test]
fn window_ids_differing_in_ascii_case_show_alike() {
    let map = AppMap::new();
    for id in ["Alacritty", "ALACRITTY", "alacritty"] {
        assert_eq!(get_app_info(id, "term", &map).icon, "alacritty");
    }
    for id in ["Org.Gnome.Nautilus", "org.gnome.NAUTILUS"] {
        assert_eq!(get_app_info(id, "Files", &map).icon, "nautilus");
    }
}
