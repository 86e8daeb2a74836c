//! The window-list applet's state and its decisions: how each message
//! changes the list of open windows, what the applet asks of the compositor
//! or the system in return, and what each window's button and menu show.
use vstd::prelude::*;

pub use crate::app_map::DesktopAction;
use crate::app_map::{
    actions_view, app_info_for, clone_actions, derive_icon, derived_icon_from,
    lemma_app_info_ignores_ascii_case, AppInfoView, AppMap, DesktopActionView,
};
use crate::config::{strings_view, Config, ConfigView};
use crate::styles::{exec_args_stripped, strip_exec_args, truncate_text, truncated};
use crate::text::{
    ascii_lower, chars_of, contains_seq, contains_str, is_ascii_chars, lowercase,
    span_equals_str, to_lowercase,
};

verus! {

// ---------------------------------------------------------------------
// Icons and actions of a window's application
// ---------------------------------------------------------------------
/// The icon and desktop actions the applet shows for a window.
#[derive(Debug)]
pub struct AppInfo {
    pub icon: String,
    pub actions: Vec<DesktopAction>,
}

/// The characters of an [`AppInfo`]'s fields.
pub struct AppInfoEntry {
    pub icon: Seq<char>,
    pub actions: Seq<DesktopActionView>,
}

impl View for AppInfo {
    type V = AppInfoEntry;

    open spec fn view(&self) -> AppInfoEntry {
        AppInfoEntry { icon: self.icon@, actions: actions_view(self.actions@) }
    }
}

/// The icon for a window without an app id, guessed from its lowercase title.
pub open spec fn title_icon(lower_title: Seq<char>) -> Seq<char> {
    if contains_seq(lower_title, "intellij"@) || contains_seq(lower_title, "idea"@) {
        "intellij-idea"@
    } else if contains_seq(lower_title, "zen"@) {
        "zen-browser"@
    } else if contains_seq(lower_title, "settings"@) {
        "com.system76.CosmicSettings"@
    } else {
        "application-x-executable-symbolic"@
    }
}

/// The icon for a window whose app id no desktop entry names, given the
/// lowercase forms of its app id and title: a few known applications by id
/// or title, else the icon that `derived_icon_from` gives.
pub open spec fn fallback_icon_from(
    app_id: Seq<char>,
    lower: Seq<char>,
    lower_title: Seq<char>,
) -> Seq<char> {
    if contains_seq(lower, "cosmic-settings"@) || contains_seq(lower_title, "cosmic settings"@) {
        "com.system76.CosmicSettings"@
    } else if contains_seq(lower, "idea"@) || contains_seq(lower, "intellij"@) || contains_seq(
        lower_title,
        "intellij"@,
    ) {
        "intellij-idea"@
    } else if lower == "zen"@ || contains_seq(lower, "zen-browser"@) || contains_seq(
        lower_title,
        "zen browser"@,
    ) {
        "zen-browser"@
    } else if lower == "alacritty"@ {
        "alacritty"@
    } else {
        derived_icon_from(app_id, lower)
    }
}

/// What a window with `app_id` shows, given the lowercase forms of its app
/// id and title and the desktop entries in `map`.
pub open spec fn window_app_info_from(
    app_id: Seq<char>,
    lower: Seq<char>,
    lower_title: Seq<char>,
    map: Map<Seq<char>, AppInfoView>,
) -> AppInfoEntry {
    if app_id.len() == 0 {
        AppInfoEntry { icon: title_icon(lower_title), actions: seq![] }
    } else if map.contains_key(lower) {
        AppInfoEntry { icon: map[lower].icon, actions: map[lower].actions }
    } else {
        AppInfoEntry { icon: fallback_icon_from(app_id, lower, lower_title), actions: seq![] }
    }
}

/// What a window with `app_id` and `title` shows, given the desktop entries
/// in `map`.
pub open spec fn window_app_info(
    app_id: Seq<char>,
    title: Seq<char>,
    map: Map<Seq<char>, AppInfoView>,
) -> AppInfoEntry {
    window_app_info_from(app_id, lowercase(app_id), lowercase(title), map)
}

fn icon_entry(icon: String) -> (r: AppInfo)
    ensures
        r@ == (AppInfoEntry { icon: icon@, actions: seq![] }),
{
    let r = AppInfo { icon, actions: Vec::new() };
    assert(r@.actions =~= Seq::<DesktopActionView>::empty());
    r
}

fn title_icon_of(lower_title: &String) -> (r: String)
    ensures
        r@ == title_icon(lower_title@),
{
    let t = chars_of(lower_title.as_str());
    proof {
        reveal_strlit("intellij-idea");
        reveal_strlit("zen-browser");
        reveal_strlit("com.system76.CosmicSettings");
        reveal_strlit("application-x-executable-symbolic");
    }
    if contains_str(&t, "intellij") || contains_str(&t, "idea") {
        "intellij-idea".to_owned()
    } else if contains_str(&t, "zen") {
        "zen-browser".to_owned()
    } else if contains_str(&t, "settings") {
        "com.system76.CosmicSettings".to_owned()
    } else {
        "application-x-executable-symbolic".to_owned()
    }
}

/// Resolves a window's app id, given its lowercase form `lower_app_id` and
/// the lowercase title `lower_title`, to the icon and actions it shows (see
/// `window_app_info_from`).
pub fn resolve_window_app_info(
    app_id: &str,
    lower_app_id: String,
    lower_title: String,
    map: &AppMap,
) -> (r: AppInfo)
    requires
        map.wf(),
    ensures
        r@ == window_app_info_from(app_id@, lower_app_id@, lower_title@, map@),
{
    if app_id.is_empty() {
        return icon_entry(title_icon_of(&lower_title));
    }
    match map.get(&lower_app_id) {
        Some(info) => {
            let actions = clone_actions(&info.actions);
            return AppInfo { icon: info.icon.clone(), actions };
        },
        None => {},
    }
    let l = chars_of(lower_app_id.as_str());
    let t = chars_of(lower_title.as_str());
    let n = l.len();
    proof {
        reveal_strlit("intellij-idea");
        reveal_strlit("zen-browser");
        reveal_strlit("com.system76.CosmicSettings");
        reveal_strlit("alacritty");
        assert(l@.subrange(0, n as int) =~= l@);
    }
    let icon = if contains_str(&l, "cosmic-settings") || contains_str(&t, "cosmic settings") {
        "com.system76.CosmicSettings".to_owned()
    } else if contains_str(&l, "idea") || contains_str(&l, "intellij") || contains_str(
        &t,
        "intellij",
    ) {
        "intellij-idea".to_owned()
    } else if span_equals_str(&l, 0, n, "zen") || contains_str(&l, "zen-browser") || contains_str(
        &t,
        "zen browser",
    ) {
        "zen-browser".to_owned()
    } else if span_equals_str(&l, 0, n, "alacritty") {
        "alacritty".to_owned()
    } else {
        derive_icon(app_id, lower_app_id)
    };
    icon_entry(icon)
}

/// A window with an ASCII app id shows what a window with the id's
/// lowercase form shows: two ASCII ids that differ only in the case of their
/// letters give the same icon and actions, whatever the title.
pub proof fn lemma_window_app_info_ignores_ascii_case(
    a: Seq<char>,
    b: Seq<char>,
    title: Seq<char>,
    map: Map<Seq<char>, AppInfoView>,
)
    requires
        is_ascii_chars(a),
        is_ascii_chars(b),
        ascii_lower(a) == ascii_lower(b),
    ensures
        window_app_info(a, title, map) == window_app_info(b, title, map),
{
    lemma_app_info_ignores_ascii_case(a, b, map);
    assert(a.len() == ascii_lower(a).len());
    assert(b.len() == ascii_lower(b).len());
    if a.len() > 0 && !map.contains_key(lowercase(a)) {
        assert(derived_icon_from(a, lowercase(a)) == app_info_for(a, map).icon);
        assert(derived_icon_from(b, lowercase(b)) == app_info_for(b, map).icon);
    }
}

/// Resolves a window's app id and title to the icon and actions it shows:
/// for an empty id an icon guessed from the title; the desktop entry stored
/// under the lowercase id; else a known or derived icon (`fallback_icon_from`).
pub fn get_app_info(app_id: &str, title: &str, map: &AppMap) -> (r: AppInfo)
    requires
        map.wf(),
    ensures
        r@ == window_app_info(app_id@, title@, map@),
{
    let lower_app_id = to_lowercase(app_id);
    let lower_title = to_lowercase(title);
    resolve_window_app_info(app_id, lower_app_id, lower_title, map)
}

// ---------------------------------------------------------------------
// Windows and messages
// ---------------------------------------------------------------------
/// What the compositor reports of a toplevel window: its app id, its title,
/// its workspaces (by keys that the caller assigns to the compositor's
/// workspace handles) and whether it is the active window.
#[derive(Debug)]
pub struct WindowInfo {
    pub app_id: String,
    pub title: String,
    pub workspace: Vec<u64>,
    pub activated: bool,
}

/// An open window: the applet's id for it, the key of its toplevel handle
/// and what the compositor reported of it.
#[derive(Debug)]
pub struct WindowEntry {
    pub id: usize,
    pub handle: u64,
    pub info: WindowInfo,
}

/// A window as plain values.
pub struct WindowView {
    pub id: usize,
    pub handle: u64,
    pub app_id: Seq<char>,
    pub title: Seq<char>,
    pub workspace: Seq<u64>,
    pub activated: bool,
}

impl View for WindowEntry {
    type V = WindowView;

    open spec fn view(&self) -> WindowView {
        WindowView {
            id: self.id,
            handle: self.handle,
            app_id: self.info.app_id@,
            title: self.info.title@,
            workspace: self.info.workspace@,
            activated: self.info.activated,
        }
    }
}

pub open spec fn windows_view(ws: Seq<WindowEntry>) -> Seq<WindowView> {
    ws.map_values(|w: WindowEntry| w@)
}

/// A copy of `v`.
fn copy_keys(v: &Vec<u64>) -> (r: Vec<u64>)
    ensures
        r@ == v@,
{
    let mut r: Vec<u64> = Vec::new();
    let mut i: usize = 0;
    while i < v.len()
        invariant
            i <= v@.len(),
            r@ == v@.take(i as int),
        decreases v@.len() - i,
    {
        r.push(v[i]);
        assert(v@.take(i + 1) =~= v@.take(i as int).push(v@[i as int]));
        i = i + 1;
    }
    assert(v@.take(v@.len() as int) =~= v@);
    r
}

/// A change to the compositor's toplevel windows; handles are keys.
#[derive(Debug)]
pub enum ToplevelUpdate {
    Add(WindowInfo, u64),
    Update(WindowInfo, u64),
    Remove(u64),
}

/// What the compositor connection reports.
#[derive(Debug)]
pub enum WaylandUpdate {
    /// The connection is up and accepts requests.
    Init,
    /// The connection has ended.
    Finished,
    Toplevel(ToplevelUpdate),
    /// The keys of the workspaces now active.
    Workspace(Vec<u64>),
}

/// A request about a toplevel window, named by its handle's key.
#[derive(Debug, Clone, Copy, PartialEq, Eq)]
pub enum ToplevelRequest {
    Activate(u64),
    Minimize(u64),
    Quit(u64),
}

/// A request to the compositor connection.
#[derive(Debug, Clone, Copy, PartialEq, Eq)]
pub enum WaylandRequest {
    Toplevel(ToplevelRequest),
}

/// What the applet reacts to.
#[derive(Debug)]
pub enum Message {
    WaylandUpdate(WaylandUpdate),
    Activate(usize),
    Close(usize),
    CloseAll(usize),
    ActivateWindow(usize),
    /// Pin the application of the window with this id to the tray.
    Pin(usize),
    /// Unpin the application of the window with this id.
    Unpin(usize),
    /// Start the pinned application at this position of the pinned list.
    LaunchPinned(usize),
    /// Unpin the application at this position of the pinned list.
    UnpinPinned(usize),
    /// Switch between showing all workspaces and the active ones only.
    ToggleAllWorkspaces,
    Spawn(usize, usize),
    AppMapLoaded(AppMap),
    ConfigChanged(Config),
    OpenSettings,
    OpenAbout,
}

/// The entries of the applet's own menu.
#[derive(Clone, Copy, Debug, PartialEq, Eq)]
pub enum AppAction {
    About,
    Settings,
}

impl AppAction {
    /// The message that choosing this entry sends.
    pub fn message(&self) -> (m: Message)
        ensures
            match self {
                AppAction::About => m is OpenAbout,
                AppAction::Settings => m is OpenSettings,
            },
    {
        match self {
            AppAction::About => Message::OpenAbout,
            AppAction::Settings => Message::OpenSettings,
        }
    }
}

/// The entries of a window's or a pinned application's menu, naming a
/// window by the applet's id or a pinned application by its position.
#[derive(Clone, Copy, Debug, PartialEq, Eq)]
pub enum WindowAction {
    Close(usize),
    CloseAll(usize),
    ActivateWindow(usize),
    Pin(usize),
    Unpin(usize),
    Spawn(usize, usize),
    ToggleAllWorkspaces,
    LaunchPinned(usize),
    UnpinPinned(usize),
}

impl WindowAction {
    /// The message that choosing this entry sends; choosing a window of the
    /// same application activates it.
    pub fn message(&self) -> (m: Message)
        ensures
            match *self {
                WindowAction::Close(id) => m matches Message::Close(x) && x == id,
                WindowAction::CloseAll(id) => m matches Message::CloseAll(x) && x == id,
                WindowAction::ActivateWindow(id) => m matches Message::Activate(x) && x == id,
                WindowAction::Pin(id) => m matches Message::Pin(x) && x == id,
                WindowAction::Unpin(id) => m matches Message::Unpin(x) && x == id,
                WindowAction::Spawn(w, a) => m matches Message::Spawn(x, y) && x == w && y == a,
                WindowAction::ToggleAllWorkspaces => m is ToggleAllWorkspaces,
                WindowAction::LaunchPinned(k) => m matches Message::LaunchPinned(x) && x == k,
                WindowAction::UnpinPinned(k) => m matches Message::UnpinPinned(x) && x == k,
            },
    {
        match *self {
            WindowAction::Close(id) => Message::Close(id),
            WindowAction::CloseAll(id) => Message::CloseAll(id),
            WindowAction::ActivateWindow(id) => Message::Activate(id),
            WindowAction::Pin(id) => Message::Pin(id),
            WindowAction::Unpin(id) => Message::Unpin(id),
            WindowAction::Spawn(win_id, act_idx) => Message::Spawn(win_id, act_idx),
            WindowAction::ToggleAllWorkspaces => Message::ToggleAllWorkspaces,
            WindowAction::LaunchPinned(k) => Message::LaunchPinned(k),
            WindowAction::UnpinPinned(k) => Message::UnpinPinned(k),
        }
    }
}

/// What the caller is to do after a message.
#[derive(Debug)]
pub enum Effect {
    Nothing,
    /// Send these requests over the compositor connection, in order.
    Send(Vec<WaylandRequest>),
    /// Store the settings, which have changed.
    SaveConfig,
    /// Run this command line with `sh -c`.
    SpawnShell(String),
    /// Run `cosmic-settings` with this argument.
    RunCosmicSettings(String),
}

/// An [`Effect`] as plain values.
pub enum EffectView {
    Nothing,
    Send(Seq<WaylandRequest>),
    SaveConfig,
    SpawnShell(Seq<char>),
    RunCosmicSettings(Seq<char>),
}

impl View for Effect {
    type V = EffectView;

    open spec fn view(&self) -> EffectView {
        match self {
            Effect::Nothing => EffectView::Nothing,
            Effect::Send(v) => EffectView::Send(v@),
            Effect::SaveConfig => EffectView::SaveConfig,
            Effect::SpawnShell(s) => EffectView::SpawnShell(s@),
            Effect::RunCosmicSettings(s) => EffectView::RunCosmicSettings(s@),
        }
    }
}

/// Whether `app_id` is among `pinned`.
fn pinned_contains(pinned: &Vec<String>, app_id: &String) -> (r: bool)
    ensures
        r == strings_view(pinned@).contains(app_id@),
{
    let mut i: usize = 0;
    while i < pinned.len()
        invariant
            i <= pinned@.len(),
            forall|k: int| 0 <= k < i ==> #[trigger] strings_view(pinned@)[k] != app_id@,
        decreases pinned@.len() - i,
    {
        if pinned[i] == *app_id {
            assert(strings_view(pinned@)[i as int] == app_id@);
            return true;
        }
        i = i + 1;
    }
    false
}

/// `pinned` without the entries equal to `app_id`.
fn strings_without(pinned: &Vec<String>, app_id: &String) -> (r: Vec<String>)
    ensures
        strings_view(r@) == pinned_without(strings_view(pinned@), app_id@),
{
    let mut r: Vec<String> = Vec::new();
    let mut i: usize = 0;
    assert(strings_view(r@) =~= pinned_without(strings_view(pinned@).take(0), app_id@));
    while i < pinned.len()
        invariant
            i <= pinned@.len(),
            strings_view(r@) == pinned_without(strings_view(pinned@).take(i as int), app_id@),
        decreases pinned@.len() - i,
    {
        let ghost before = strings_view(r@);
        let ghost all = strings_view(pinned@);
        assert(all.take(i + 1).drop_last() =~= all.take(i as int));
        assert(all.take(i + 1).last() == all[i as int]);
        if pinned[i] != *app_id {
            r.push(pinned[i].clone());
            assert(strings_view(r@) =~= before.push(all[i as int]));
        }
        i = i + 1;
    }
    assert(strings_view(pinned@).take(pinned@.len() as int) =~= strings_view(pinned@));
    r
}

// ---------------------------------------------------------------------
// The applet's state
// ---------------------------------------------------------------------
/// The applet's state: its open windows in the order they appeared, the
/// next window id, the active workspaces, the compositor connection's
/// state, the desktop entries and the settings.
#[derive(Debug)]
pub struct AppletState {
    pub windows: Vec<WindowEntry>,
    pub next_id: usize,
    pub active_workspaces: Vec<u64>,
    pub connected: bool,
    pub connection_finished: bool,
    pub app_map: AppMap,
    pub config: Config,
}

/// The applet's state as plain values.
pub struct AppletView {
    pub windows: Seq<WindowView>,
    pub next_id: usize,
    pub active_workspaces: Seq<u64>,
    pub connected: bool,
    pub connection_finished: bool,
    pub app_map: Map<Seq<char>, AppInfoView>,
    pub config: ConfigView,
}

impl View for AppletState {
    type V = AppletView;

    open spec fn view(&self) -> AppletView {
        AppletView {
            windows: windows_view(self.windows@),
            next_id: self.next_id,
            active_workspaces: self.active_workspaces@,
            connected: self.connected,
            connection_finished: self.connection_finished,
            app_map: self.app_map@,
            config: self.config@,
        }
    }
}

/// Window ids increase along the list and stay below `next_id`; no two
/// windows share a handle.
pub open spec fn windows_wf(ws: Seq<WindowView>, next_id: usize) -> bool {
    &&& forall|i: int, j: int| 0 <= i < j < ws.len() ==> #[trigger] ws[i].id < #[trigger] ws[j].id
    &&& forall|i: int| 0 <= i < ws.len() ==> #[trigger] ws[i].id < next_id
    &&& forall|i: int, j: int|
        0 <= i < j < ws.len() ==> #[trigger] ws[i].handle != #[trigger] ws[j].handle
}

pub open spec fn has_handle(ws: Seq<WindowView>, h: u64) -> bool {
    exists|i: int| 0 <= i < ws.len() && #[trigger] ws[i].handle == h
}

/// The position of the window with handle `h`.
pub open spec fn handle_index(ws: Seq<WindowView>, h: u64) -> int {
    choose|i: int| 0 <= i < ws.len() && #[trigger] ws[i].handle == h
}

pub open spec fn has_id(ws: Seq<WindowView>, id: usize) -> bool {
    exists|i: int| 0 <= i < ws.len() && #[trigger] ws[i].id == id
}

/// The position of the window with id `id`.
pub open spec fn id_index(ws: Seq<WindowView>, id: usize) -> int {
    choose|i: int| 0 <= i < ws.len() && #[trigger] ws[i].id == id
}

/// A new window reported with `info` under handle `h`.
pub open spec fn new_window(s: AppletView, info: WindowInfo, h: u64) -> WindowView {
    WindowView {
        id: s.next_id,
        handle: h,
        app_id: info.app_id@,
        title: info.title@,
        workspace: info.workspace@,
        activated: info.activated,
    }
}

/// `s` with the window `info` under handle `h` appended with the next id.
pub open spec fn with_new_window(s: AppletView, info: WindowInfo, h: u64) -> AppletView {
    AppletView {
        windows: s.windows.push(new_window(s, info, h)),
        next_id: (s.next_id + 1) as usize,
        ..s
    }
}

pub open spec fn keeps_handle(h: u64) -> spec_fn(WindowView) -> bool {
    |w: WindowView| w.handle != h
}

/// The state after a toplevel change: a new handle appends a window with the
/// next id (a known one is ignored by `Add` and updated in place, keeping its
/// id, by `Update`); `Remove` drops every window with the handle.
pub open spec fn toplevel_step(s: AppletView, u: ToplevelUpdate) -> AppletView {
    match u {
        ToplevelUpdate::Add(info, h) => if has_handle(s.windows, h) {
            s
        } else {
            with_new_window(s, info, h)
        },
        ToplevelUpdate::Update(info, h) => if has_handle(s.windows, h) {
            let i = handle_index(s.windows, h);
            AppletView {
                windows: s.windows.update(
                    i,
                    WindowView {
                        id: s.windows[i].id,
                        handle: h,
                        app_id: info.app_id@,
                        title: info.title@,
                        workspace: info.workspace@,
                        activated: info.activated,
                    },
                ),
                ..s
            }
        } else {
            with_new_window(s, info, h)
        },
        ToplevelUpdate::Remove(h) => AppletView { windows: s.windows.filter(keeps_handle(h)), ..s },
    }
}

/// `pinned` with `app_id` added at the end, unless it is already there.
pub open spec fn pinned_with(pinned: Seq<Seq<char>>, app_id: Seq<char>) -> Seq<Seq<char>> {
    if pinned.contains(app_id) {
        pinned
    } else {
        pinned.push(app_id)
    }
}

/// `pinned` without any entry equal to `app_id`, the rest kept in order.
pub open spec fn pinned_without(pinned: Seq<Seq<char>>, app_id: Seq<char>) -> Seq<Seq<char>>
    decreases pinned.len(),
{
    if pinned.len() == 0 {
        pinned
    } else {
        let rest = pinned_without(pinned.drop_last(), app_id);
        if pinned.last() == app_id {
            rest
        } else {
            rest.push(pinned.last())
        }
    }
}

/// `s` with the pinned applications `pinned`.
pub open spec fn with_pinned(s: AppletView, pinned: Seq<Seq<char>>) -> AppletView {
    AppletView { config: ConfigView { pinned_apps: pinned, ..s.config }, ..s }
}

/// The state after message `m`.
pub open spec fn applet_step(s: AppletView, m: Message) -> AppletView {
    match m {
        Message::WaylandUpdate(u) => match u {
            WaylandUpdate::Init => AppletView { connected: true, connection_finished: false, ..s },
            WaylandUpdate::Toplevel(t) => toplevel_step(s, t),
            WaylandUpdate::Workspace(active) => AppletView { active_workspaces: active@, ..s },
            WaylandUpdate::Finished => AppletView {
                connection_finished: true,
                windows: seq![],
                ..s
            },
        },
        Message::AppMapLoaded(map) => AppletView { app_map: map@, ..s },
        Message::ConfigChanged(config) => AppletView { config: config@, ..s },
        Message::Pin(id) => if has_id(s.windows, id) {
            with_pinned(
                s,
                pinned_with(s.config.pinned_apps, s.windows[id_index(s.windows, id)].app_id),
            )
        } else {
            s
        },
        Message::Unpin(id) => if has_id(s.windows, id) {
            with_pinned(
                s,
                pinned_without(s.config.pinned_apps, s.windows[id_index(s.windows, id)].app_id),
            )
        } else {
            s
        },
        Message::UnpinPinned(k) => if k < s.config.pinned_apps.len() {
            with_pinned(s, pinned_without(s.config.pinned_apps, s.config.pinned_apps[k as int]))
        } else {
            s
        },
        Message::ToggleAllWorkspaces => AppletView {
            config: ConfigView { show_all_workspaces: !s.config.show_all_workspaces, ..s.config },
            ..s
        },
        _ => s,
    }
}

/// Quit requests for the windows of `ws` whose app id is `app_id`, in order.
pub open spec fn quit_requests(ws: Seq<WindowView>, app_id: Seq<char>) -> Seq<WaylandRequest>
    decreases ws.len(),
{
    if ws.len() == 0 {
        seq![]
    } else {
        let rest = quit_requests(ws.drop_last(), app_id);
        if ws.last().app_id == app_id {
            rest.push(WaylandRequest::Toplevel(ToplevelRequest::Quit(ws.last().handle)))
        } else {
            rest
        }
    }
}

/// A request about the window with id `id`, sent where such a window exists
/// and the connection is up.
pub open spec fn request_for(s: AppletView, id: usize, activate: bool) -> EffectView {
    if has_id(s.windows, id) && s.connected {
        let h = s.windows[id_index(s.windows, id)].handle;
        EffectView::Send(
            seq![
                WaylandRequest::Toplevel(
                    if activate {
                        ToplevelRequest::Activate(h)
                    } else {
                        ToplevelRequest::Quit(h)
                    },
                ),
            ],
        )
    } else {
        EffectView::Nothing
    }
}

/// What the applet asks for after message `m` in state `s`.
pub open spec fn applet_effect(s: AppletView, m: Message) -> EffectView {
    match m {
        Message::Activate(id) => request_for(s, id, true),
        Message::ActivateWindow(id) => request_for(s, id, true),
        Message::Close(id) => request_for(s, id, false),
        Message::CloseAll(id) => if has_id(s.windows, id) && s.connected {
            EffectView::Send(quit_requests(s.windows, s.windows[id_index(s.windows, id)].app_id))
        } else {
            EffectView::Nothing
        },
        Message::Pin(id) => if has_id(s.windows, id) {
            EffectView::SaveConfig
        } else {
            EffectView::Nothing
        },
        Message::Unpin(id) => if has_id(s.windows, id) {
            EffectView::SaveConfig
        } else {
            EffectView::Nothing
        },
        Message::UnpinPinned(k) => if k < s.config.pinned_apps.len() {
            EffectView::SaveConfig
        } else {
            EffectView::Nothing
        },
        Message::ToggleAllWorkspaces => EffectView::SaveConfig,
        Message::LaunchPinned(k) => if k < s.config.pinned_apps.len() {
            match app_info_for(s.config.pinned_apps[k as int], s.app_map).main_exec {
                Some(command) => EffectView::SpawnShell(exec_args_stripped(command)),
                None => EffectView::Nothing,
            }
        } else {
            EffectView::Nothing
        },
        Message::Spawn(id, k) => if has_id(s.windows, id) {
            let w = s.windows[id_index(s.windows, id)];
            let info = window_app_info(w.app_id, w.title, s.app_map);
            if k < info.actions.len() {
                EffectView::SpawnShell(exec_args_stripped(info.actions[k as int].command))
            } else {
                EffectView::Nothing
            }
        } else {
            EffectView::Nothing
        },
        Message::OpenSettings => EffectView::RunCosmicSettings("panel-applet"@),
        Message::OpenAbout => EffectView::RunCosmicSettings("about"@),
        _ => EffectView::Nothing,
    }
}

/// The messages that `update` takes in state `s`: a window with a new handle
/// can only be added while `next_id` has room to grow, and a loaded map has
/// distinct keys.
pub open spec fn message_allowed(s: AppletView, m: Message) -> bool {
    match m {
        Message::WaylandUpdate(WaylandUpdate::Toplevel(ToplevelUpdate::Add(_, h))) => !has_handle(
            s.windows,
            h,
        ) ==> s.next_id < usize::MAX,
        Message::WaylandUpdate(WaylandUpdate::Toplevel(ToplevelUpdate::Update(_, h))) => !has_handle(
            s.windows,
            h,
        ) ==> s.next_id < usize::MAX,
        Message::AppMapLoaded(map) => map.wf(),
        _ => true,
    }
}

proof fn lemma_id_index(ws: Seq<WindowView>, next_id: usize, i: int)
    requires
        windows_wf(ws, next_id),
        0 <= i < ws.len(),
    ensures
        has_id(ws, ws[i].id),
        id_index(ws, ws[i].id) == i,
{
    let j = id_index(ws, ws[i].id);
    assert(has_id(ws, ws[i].id));
    if j < i {
        assert(ws[j].id < ws[i].id);
    } else if i < j {
        assert(ws[i].id < ws[j].id);
    }
}

proof fn lemma_handle_index(ws: Seq<WindowView>, next_id: usize, i: int)
    requires
        windows_wf(ws, next_id),
        0 <= i < ws.len(),
    ensures
        has_handle(ws, ws[i].handle),
        handle_index(ws, ws[i].handle) == i,
{
    let j = handle_index(ws, ws[i].handle);
    assert(has_handle(ws, ws[i].handle));
    if j < i {
        assert(ws[j].handle != ws[i].handle);
    } else if i < j {
        assert(ws[i].handle != ws[j].handle);
    }
}

impl AppletState {
    /// The state's invariant.
    pub open spec fn wf(&self) -> bool {
        &&& windows_wf(self@.windows, self.next_id)
        &&& self.app_map.wf()
    }

    /// The state at start-up: no windows, no connection, no desktop entries,
    /// and the settings `config`.
    pub fn new(config: Config) -> (s: AppletState)
        ensures
            s.wf(),
            s@.windows == Seq::<WindowView>::empty(),
            s@.next_id == 0,
            s@.active_workspaces == Seq::<u64>::empty(),
            !s@.connected,
            !s@.connection_finished,
            s@.app_map == Map::<Seq<char>, AppInfoView>::empty(),
            s@.config == config@,
    {
        let s = AppletState {
            windows: Vec::new(),
            next_id: 0,
            active_workspaces: Vec::new(),
            connected: false,
            connection_finished: false,
            app_map: AppMap::new(),
            config,
        };
        assert(s@.windows =~= Seq::<WindowView>::empty());
        s
    }

    /// The position of the window with id `id`, if there is one.
    fn find_id(&self, id: usize) -> (r: Option<usize>)
        requires
            self.wf(),
        ensures
            match r {
                Some(i) => i < self.windows@.len() && has_id(self@.windows, id) && id_index(
                    self@.windows,
                    id,
                ) == i,
                None => !has_id(self@.windows, id),
            },
    {
        let mut i: usize = 0;
        while i < self.windows.len()
            invariant
                self.wf(),
                i <= self.windows@.len(),
                forall|k: int| 0 <= k < i ==> #[trigger] self@.windows[k].id != id,
            decreases self.windows@.len() - i,
        {
            if self.windows[i].id == id {
                proof {
                    lemma_id_index(self@.windows, self.next_id, i as int);
                }
                return Some(i);
            }
            i = i + 1;
        }
        None
    }

    /// The position of the window with handle `h`, if there is one.
    fn find_handle(&self, h: u64) -> (r: Option<usize>)
        requires
            self.wf(),
        ensures
            match r {
                Some(i) => i < self.windows@.len() && has_handle(self@.windows, h) && handle_index(
                    self@.windows,
                    h,
                ) == i,
                None => !has_handle(self@.windows, h),
            },
    {
        let mut i: usize = 0;
        while i < self.windows.len()
            invariant
                self.wf(),
                i <= self.windows@.len(),
                forall|k: int| 0 <= k < i ==> #[trigger] self@.windows[k].handle != h,
            decreases self.windows@.len() - i,
        {
            if self.windows[i].handle == h {
                proof {
                    lemma_handle_index(self@.windows, self.next_id, i as int);
                }
                return Some(i);
            }
            i = i + 1;
        }
        None
    }

    /// Appends the window `info` under handle `h` with the next id.
    fn push_window(&mut self, info: WindowInfo, h: u64)
        requires
            old(self).wf(),
            old(self).next_id < usize::MAX,
            !has_handle(old(self)@.windows, h),
        ensures
            final(self).wf(),
            final(self)@ == with_new_window(old(self)@, info, h),
    {
        let ghost old_view = self@;
        let w = WindowEntry { id: self.next_id, handle: h, info };
        self.windows.push(w);
        self.next_id = self.next_id + 1;
        assert(self@.windows =~= old_view.windows.push(new_window(old_view, info, h)));
        assert forall|i: int| 0 <= i < self@.windows.len() implies #[trigger] self@.windows[i].id
            < self.next_id by {
            if i < old_view.windows.len() {
                assert(old_view.windows[i].id < old_view.next_id);
            }
        }
        assert forall|i: int, j: int|
            0 <= i < j < self@.windows.len() implies #[trigger] self@.windows[i].handle
            != #[trigger] self@.windows[j].handle by {
            if j == old_view.windows.len() {
                assert(old_view.windows[i].handle != h);
            } else {
                assert(old_view.windows[i].handle != old_view.windows[j].handle);
            }
        }
        assert forall|i: int, j: int|
            0 <= i < j < self@.windows.len() implies #[trigger] self@.windows[i].id
            < #[trigger] self@.windows[j].id by {
            if j == old_view.windows.len() {
                assert(old_view.windows[i].id < old_view.next_id);
            } else {
                assert(old_view.windows[i].id < old_view.windows[j].id);
            }
        }
    }

    /// Drops every window with handle `h`.
    fn remove_handle(&mut self, h: u64)
        requires
            old(self).wf(),
        ensures
            final(self).wf(),
            final(self)@ == (AppletView {
                windows: old(self)@.windows.filter(keeps_handle(h)),
                ..old(self)@
            }),
    {
        let ghost old_view = self@;
        let ghost ws = old_view.windows;
        let mut old_windows: Vec<WindowEntry> = Vec::new();
        std::mem::swap(&mut old_windows, &mut self.windows);
        assert(windows_view(old_windows@) == ws);
        let mut kept: Vec<WindowEntry> = Vec::new();
        let n = old_windows.len();
        let mut i: usize = 0;
        while i < n
            invariant
                n == old_windows@.len(),
                ws == windows_view(old_windows@),
                windows_wf(ws, old_view.next_id),
                i <= n,
                windows_view(kept@) == ws.take(i as int).filter(keeps_handle(h)),
                forall|k: int|
                    0 <= k < kept@.len() ==> exists|j: int|
                        0 <= j < i && #[trigger] windows_view(kept@)[k] == #[trigger] ws[j],
                forall|k: int, l: int|
                    0 <= k < l < kept@.len() ==> #[trigger] windows_view(kept@)[k].id
                        < #[trigger] windows_view(kept@)[l].id,
                forall|k: int, l: int|
                    0 <= k < l < kept@.len() ==> #[trigger] windows_view(kept@)[k].handle
                        != #[trigger] windows_view(kept@)[l].handle,
            decreases n - i,
        {
            let ghost before = windows_view(kept@);
            assert(ws.take(i + 1) =~= ws.take(i as int).push(ws[i as int]));
            proof {
                ws.take(i as int).lemma_filter_push(ws[i as int], keeps_handle(h));
            }
            let w = &old_windows[i];
            if w.handle != h {
                let entry = WindowEntry {
                    id: w.id,
                    handle: w.handle,
                    info: WindowInfo {
                        app_id: w.info.app_id.clone(),
                        title: w.info.title.clone(),
                        workspace: copy_keys(&w.info.workspace),
                        activated: w.info.activated,
                    },
                };
                kept.push(entry);
                assert(windows_view(kept@) =~= before.push(ws[i as int]));
                assert forall|k: int, l: int|
                    0 <= k < l < kept@.len() implies #[trigger] windows_view(kept@)[k].id
                    < #[trigger] windows_view(kept@)[l].id && windows_view(kept@)[k].handle
                    != windows_view(kept@)[l].handle by {
                    if l == before.len() {
                        let j = choose|j: int| 0 <= j < i && #[trigger] before[k] == #[trigger] ws[j];
                        assert(ws[j].id < ws[i as int].id);
                        assert(ws[j].handle != ws[i as int].handle);
                    } else {
                        assert(before[k].id < before[l].id);
                        assert(before[k].handle != before[l].handle);
                    }
                }
                assert forall|k: int| 0 <= k < kept@.len() implies exists|j: int|
                    0 <= j < i + 1 && #[trigger] windows_view(kept@)[k] == #[trigger] ws[j] by {
                    if k == before.len() {
                        assert(windows_view(kept@)[k] == ws[i as int]);
                    } else {
                        let j = choose|j: int| 0 <= j < i && #[trigger] before[k] == #[trigger] ws[j];
                        assert(windows_view(kept@)[k] == ws[j]);
                    }
                }
            } else {
                assert forall|k: int| 0 <= k < kept@.len() implies exists|j: int|
                    0 <= j < i + 1 && #[trigger] windows_view(kept@)[k] == #[trigger] ws[j] by {
                    let j = choose|j: int| 0 <= j < i && #[trigger] before[k] == #[trigger] ws[j];
                }
            }
            i = i + 1;
        }
        assert(ws.take(n as int) =~= ws);
        let ghost kv = windows_view(kept@);
        assert forall|k: int| 0 <= k < kv.len() implies #[trigger] kv[k].id < old_view.next_id by {
            let j = choose|j: int| 0 <= j < n && #[trigger] kv[k] == #[trigger] ws[j];
            assert(ws[j].id < old_view.next_id);
        }
        self.windows = kept;
    }

    /// Handles message `m`: updates the state as `applet_step` says and
    /// returns what the caller is to do, as `applet_effect` says.
    pub fn update(&mut self, m: Message) -> (e: Effect)
        requires
            old(self).wf(),
            message_allowed(old(self)@, m),
        ensures
            final(self).wf(),
            final(self)@ == applet_step(old(self)@, m),
            e@ == applet_effect(old(self)@, m),
    {
        let ghost old_view = self@;
        match m {
            Message::WaylandUpdate(u) => {
                match u {
                    WaylandUpdate::Init => {
                        self.connected = true;
                        self.connection_finished = false;
                    },
                    WaylandUpdate::Toplevel(t) => {
                        match t {
                            ToplevelUpdate::Add(info, h) => {
                                if self.find_handle(h).is_none() {
                                    self.push_window(info, h);
                                }
                            },
                            ToplevelUpdate::Update(info, h) => {
                                match self.find_handle(h) {
                                    Some(i) => {
                                        let id = self.windows[i].id;
                                        let ghost new_w = WindowView {
                                            id,
                                            handle: h,
                                            app_id: info.app_id@,
                                            title: info.title@,
                                            workspace: info.workspace@,
                                            activated: info.activated,
                                        };
                                        self.windows.set(i, WindowEntry { id, handle: h, info });
                                        assert(self@.windows =~= old_view.windows.update(
                                            i as int,
                                            new_w,
                                        ));
                                        assert(old_view.windows[i as int].handle == h);
                                        assert forall|a: int, b: int|
                                            0 <= a < b < self@.windows.len() implies #[trigger] self@.windows[a].handle
                                            != #[trigger] self@.windows[b].handle by {
                                            assert(old_view.windows[a].handle != old_view.windows[b].handle);
                                        }
                                        assert forall|a: int, b: int|
                                            0 <= a < b < self@.windows.len() implies #[trigger] self@.windows[a].id
                                            < #[trigger] self@.windows[b].id by {
                                            assert(old_view.windows[a].id < old_view.windows[b].id);
                                        }
                                        assert forall|a: int| 0 <= a < self@.windows.len() implies #[trigger] self@.windows[a].id
                                            < self.next_id by {
                                            assert(old_view.windows[a].id < old_view.next_id);
                                        }
                                    },
                                    None => {
                                        self.push_window(info, h);
                                    },
                                }
                            },
                            ToplevelUpdate::Remove(h) => {
                                self.remove_handle(h);
                            },
                        }
                    },
                    WaylandUpdate::Workspace(active) => {
                        self.active_workspaces = active;
                    },
                    WaylandUpdate::Finished => {
                        self.connection_finished = true;
                        self.windows = Vec::new();
                        assert(self@.windows =~= Seq::<WindowView>::empty());
                    },
                }
                Effect::Nothing
            },
            Message::Activate(id) => self.request(id, true),
            Message::ActivateWindow(id) => self.request(id, true),
            Message::Close(id) => self.request(id, false),
            Message::CloseAll(id) => {
                match self.find_id(id) {
                    Some(i) => {
                        if self.connected {
                            Effect::Send(self.quit_all(i))
                        } else {
                            Effect::Nothing
                        }
                    },
                    None => Effect::Nothing,
                }
            },
            Message::Pin(id) => {
                match self.find_id(id) {
                    Some(i) => {
                        let app_id = self.windows[i].info.app_id.clone();
                        if !pinned_contains(&self.config.pinned_apps, &app_id) {
                            let ghost before = strings_view(self.config.pinned_apps@);
                            self.config.pinned_apps.push(app_id);
                            assert(strings_view(self.config.pinned_apps@) =~= before.push(
                                old_view.windows[i as int].app_id,
                            ));
                        }
                        assert(self@ == applet_step(old_view, m));
                        Effect::SaveConfig
                    },
                    None => Effect::Nothing,
                }
            },
            Message::Unpin(id) => {
                match self.find_id(id) {
                    Some(i) => {
                        let pinned = strings_without(&self.config.pinned_apps, &self.windows[i].info.app_id);
                        self.config.pinned_apps = pinned;
                        assert(self@ == applet_step(old_view, m));
                        Effect::SaveConfig
                    },
                    None => Effect::Nothing,
                }
            },
            Message::UnpinPinned(k) => {
                if k < self.config.pinned_apps.len() {
                    let app_id = self.config.pinned_apps[k].clone();
                    let pinned = strings_without(&self.config.pinned_apps, &app_id);
                    self.config.pinned_apps = pinned;
                    assert(self@ == applet_step(old_view, m));
                    Effect::SaveConfig
                } else {
                    Effect::Nothing
                }
            },
            Message::ToggleAllWorkspaces => {
                self.config.show_all_workspaces = !self.config.show_all_workspaces;
                Effect::SaveConfig
            },
            Message::LaunchPinned(k) => {
                if k < self.config.pinned_apps.len() {
                    let info = crate::app_map::get_app_info(self.config.pinned_apps[k].as_str(), &self.app_map);
                    match &info.main_exec {
                        Some(command) => Effect::SpawnShell(strip_exec_args(command.as_str())),
                        None => Effect::Nothing,
                    }
                } else {
                    Effect::Nothing
                }
            },
            Message::Spawn(id, k) => {
                match self.find_id(id) {
                    Some(i) => {
                        let w = &self.windows[i];
                        let info = get_app_info(w.info.app_id.as_str(), w.info.title.as_str(), &self.app_map);
                        if k < info.actions.len() {
                            Effect::SpawnShell(strip_exec_args(info.actions[k].command.as_str()))
                        } else {
                            Effect::Nothing
                        }
                    },
                    None => Effect::Nothing,
                }
            },
            Message::AppMapLoaded(map) => {
                self.app_map = map;
                Effect::Nothing
            },
            Message::ConfigChanged(config) => {
                self.config = config;
                Effect::Nothing
            },
            Message::OpenSettings => {
                proof {
                    reveal_strlit("panel-applet");
                }
                Effect::RunCosmicSettings("panel-applet".to_owned())
            },
            Message::OpenAbout => {
                proof {
                    reveal_strlit("about");
                }
                Effect::RunCosmicSettings("about".to_owned())
            },
        }
    }

    /// An activate (or quit) request for the window with id `id`.
    fn request(&self, id: usize, activate: bool) -> (e: Effect)
        requires
            self.wf(),
        ensures
            e@ == request_for(self@, id, activate),
    {
        match self.find_id(id) {
            Some(i) => {
                if self.connected {
                    let h = self.windows[i].handle;
                    let req = if activate {
                        ToplevelRequest::Activate(h)
                    } else {
                        ToplevelRequest::Quit(h)
                    };
                    let mut v: Vec<WaylandRequest> = Vec::new();
                    v.push(WaylandRequest::Toplevel(req));
                    assert(v@ =~= seq![WaylandRequest::Toplevel(req)]);
                    Effect::Send(v)
                } else {
                    Effect::Nothing
                }
            },
            None => Effect::Nothing,
        }
    }

    /// Quit requests for every window with the app id of window `i`.
    fn quit_all(&self, i: usize) -> (r: Vec<WaylandRequest>)
        requires
            self.wf(),
            i < self.windows@.len(),
        ensures
            r@ == quit_requests(self@.windows, self@.windows[i as int].app_id),
    {
        let app_id = &self.windows[i].info.app_id;
        let mut r: Vec<WaylandRequest> = Vec::new();
        let mut k: usize = 0;
        while k < self.windows.len()
            invariant
                k <= self.windows@.len(),
                app_id@ == self@.windows[i as int].app_id,
                r@ == quit_requests(self@.windows.take(k as int), app_id@),
            decreases self.windows@.len() - k,
        {
            assert(self@.windows.take(k + 1).drop_last() =~= self@.windows.take(k as int));
            if self.windows[k].info.app_id == *app_id {
                r.push(WaylandRequest::Toplevel(ToplevelRequest::Quit(self.windows[k].handle)));
            }
            k = k + 1;
        }
        assert(self@.windows.take(self@.windows.len() as int) =~= self@.windows);
        r
    }
}

// ---------------------------------------------------------------------
// What the panel shows
// ---------------------------------------------------------------------
/// How the window list is drawn.
#[derive(Clone, Copy, Debug, PartialEq, Eq)]
pub enum ListKind {
    /// The compositor connection has ended.
    ConnectionLost,
    /// No window is shown: a placeholder with the applet's own menu.
    Empty,
    /// One button per shown window.
    Windows,
}

/// A window is on an active workspace where it names no workspace or one of
/// its workspaces is active.
pub open spec fn on_active_workspace(w: WindowView, active: Seq<u64>) -> bool {
    w.workspace.len() == 0 || exists|j: int|
        0 <= j < w.workspace.len() && active.contains(#[trigger] w.workspace[j])
}

/// The window is shown: all workspaces are shown, or it is on an active one.
pub open spec fn is_shown(s: AppletView, w: WindowView) -> bool {
    s.config.show_all_workspaces || on_active_workspace(w, s.active_workspaces)
}

/// The positions, below `n`, of the windows that are shown, in order.
pub open spec fn shown_positions(s: AppletView, n: nat) -> Seq<usize>
    decreases n,
{
    if n == 0 {
        seq![]
    } else {
        let rest = shown_positions(s, (n - 1) as nat);
        if is_shown(s, s.windows[n - 1]) {
            rest.push((n - 1) as usize)
        } else {
            rest
        }
    }
}

/// Some shown window belongs to the application `app_id`.
pub open spec fn has_shown_window(s: AppletView, app_id: Seq<char>) -> bool {
    exists|i: int|
        0 <= i < s.windows.len() && is_shown(s, #[trigger] s.windows[i]) && s.windows[i].app_id
            == app_id
}

/// The positions, below `n`, of the pinned applications that no shown
/// window belongs to, in order: they are shown as pinned items.
pub open spec fn pinned_positions(s: AppletView, n: nat) -> Seq<usize>
    decreases n,
{
    if n == 0 {
        seq![]
    } else {
        let rest = pinned_positions(s, (n - 1) as nat);
        if !has_shown_window(s, s.config.pinned_apps[n - 1]) {
            rest.push((n - 1) as usize)
        } else {
            rest
        }
    }
}

/// The menu of the pinned item at position `k` of the pinned list.
pub open spec fn pinned_menu_spec(k: usize) -> Seq<MenuEntryView> {
    seq![MenuEntryView::Button("Unpin from app tray"@, WindowAction::UnpinPinned(k))]
}

/// The label of a window: its title, or `"Untitled"` for an empty one.
pub open spec fn display_title_of(title: Seq<char>) -> Seq<char> {
    if title.len() == 0 {
        "Untitled"@
    } else {
        title
    }
}

/// One entry of a window's menu.
#[derive(Debug)]
pub enum MenuEntry {
    Button(String, WindowAction),
    Divider,
}

/// A menu entry as plain values.
pub enum MenuEntryView {
    Button(Seq<char>, WindowAction),
    Divider,
}

impl View for MenuEntry {
    type V = MenuEntryView;

    open spec fn view(&self) -> MenuEntryView {
        match self {
            MenuEntry::Button(label, action) => MenuEntryView::Button(label@, *action),
            MenuEntry::Divider => MenuEntryView::Divider,
        }
    }
}

pub open spec fn menu_view(entries: Seq<MenuEntry>) -> Seq<MenuEntryView> {
    entries.map_values(|e: MenuEntry| e@)
}

/// Buttons that run the desktop actions `actions` for the window `id`.
pub open spec fn action_buttons(
    actions: Seq<DesktopActionView>,
    id: usize,
    limit: usize,
) -> Seq<MenuEntryView> {
    Seq::new(
        actions.len(),
        |k: int|
            MenuEntryView::Button(
                truncated(actions[k].name, limit as nat),
                WindowAction::Spawn(id, k as usize),
            ),
    )
}

/// The windows of `ws` whose app id is `app_id`, in order.
pub open spec fn same_app(ws: Seq<WindowView>, app_id: Seq<char>) -> Seq<WindowView>
    decreases ws.len(),
{
    if ws.len() == 0 {
        seq![]
    } else {
        let rest = same_app(ws.drop_last(), app_id);
        if ws.last().app_id == app_id {
            rest.push(ws.last())
        } else {
            rest
        }
    }
}

/// Buttons that activate the windows `ws`.
pub open spec fn window_buttons(ws: Seq<WindowView>, limit: usize) -> Seq<MenuEntryView> {
    Seq::new(
        ws.len(),
        |k: int|
            MenuEntryView::Button(
                truncated(display_title_of(ws[k].title), limit as nat),
                WindowAction::ActivateWindow(ws[k].id),
            ),
    )
}

/// The pin entry of a window's menu: "Unpin from app tray" where its
/// application is pinned, else "Pin to app tray".
pub open spec fn pin_entry(s: AppletView, w: WindowView) -> MenuEntryView {
    if s.config.pinned_apps.contains(w.app_id) {
        MenuEntryView::Button("Unpin from app tray"@, WindowAction::Unpin(w.id))
    } else {
        MenuEntryView::Button("Pin to app tray"@, WindowAction::Pin(w.id))
    }
}

/// The workspace entry of a window's menu: "Show current workspace only"
/// while all workspaces are shown, else "Show all workspaces".
pub open spec fn workspace_entry(s: AppletView) -> MenuEntryView {
    if s.config.show_all_workspaces {
        MenuEntryView::Button("Show current workspace only"@, WindowAction::ToggleAllWorkspaces)
    } else {
        MenuEntryView::Button("Show all workspaces"@, WindowAction::ToggleAllWorkspaces)
    }
}

/// The menu of the window at position `i`: its application's desktop
/// actions, a divider if there are any; every window of the same
/// application, then a divider; the pin (or unpin) entry, the workspace
/// filter entry and a divider; and "Quit All" where the application has
/// more than one window, else "Quit". Labels of actions and windows are cut
/// to the configured length.
pub open spec fn window_menu_spec(s: AppletView, i: int) -> Seq<MenuEntryView> {
    let w = s.windows[i];
    let limit = s.config.context_menu_text_limit;
    let info = window_app_info(w.app_id, w.title, s.app_map);
    let same = same_app(s.windows, w.app_id);
    action_buttons(info.actions, w.id, limit) + (if info.actions.len() > 0 {
        seq![MenuEntryView::Divider]
    } else {
        seq![]
    }) + window_buttons(same, limit) + (if same.len() > 0 {
        seq![MenuEntryView::Divider]
    } else {
        seq![]
    }) + seq![pin_entry(s, w), workspace_entry(s), MenuEntryView::Divider]
        + if same.len() > 1 {
        seq![MenuEntryView::Button("Quit All"@, WindowAction::CloseAll(w.id))]
    } else {
        seq![MenuEntryView::Button("Quit"@, WindowAction::Close(w.id))]
    }
}

/// The label of a window: its title, or `"Untitled"` for an empty one.
pub fn display_title(title: &str) -> (r: String)
    ensures
        r@ == display_title_of(title@),
{
    if title.is_empty() {
        proof {
            reveal_strlit("Untitled");
        }
        "Untitled".to_owned()
    } else {
        title.to_owned()
    }
}

fn push_entry(menu: &mut Vec<MenuEntry>, e: MenuEntry)
    ensures
        menu_view(final(menu)@) == menu_view(old(menu)@).push(e@),
{
    let ghost before = menu_view(menu@);
    menu.push(e);
    assert(menu_view(menu@) =~= before.push(e@));
}

impl AppletState {
    /// How the window list is drawn: the lost connection first; then empty
    /// where neither a window nor a pinned item is shown.
    pub fn list_kind(&self) -> (k: ListKind)
        requires
            self.wf(),
        ensures
            k == (if self@.connection_finished {
                ListKind::ConnectionLost
            } else if shown_positions(self@, self@.windows.len()).len() == 0 && pinned_positions(
                self@,
                self@.config.pinned_apps.len(),
            ).len() == 0 {
                ListKind::Empty
            } else {
                ListKind::Windows
            }),
    {
        if self.connection_finished {
            ListKind::ConnectionLost
        } else if self.shown_windows().len() == 0 && self.pinned_items().len() == 0 {
            ListKind::Empty
        } else {
            ListKind::Windows
        }
    }

    /// Whether a shown window belongs to the application `app_id`.
    fn has_shown_window_of(&self, app_id: &String) -> (r: bool)
        requires
            self.wf(),
        ensures
            r == has_shown_window(self@, app_id@),
    {
        let mut i: usize = 0;
        while i < self.windows.len()
            invariant
                self.wf(),
                i <= self.windows@.len(),
                forall|k: int|
                    0 <= k < i ==> !(is_shown(self@, #[trigger] self@.windows[k])
                        && self@.windows[k].app_id == app_id@),
            decreases self.windows@.len() - i,
        {
            if (self.config.show_all_workspaces || self.on_active(i)) && self.windows[i].info.app_id
                == *app_id {
                assert(is_shown(self@, self@.windows[i as int]));
                return true;
            }
            i = i + 1;
        }
        false
    }

    /// The positions in the pinned list of the applications that no shown
    /// window belongs to, in order: each is drawn as a pinned item.
    pub fn pinned_items(&self) -> (r: Vec<usize>)
        requires
            self.wf(),
        ensures
            r@ == pinned_positions(self@, self@.config.pinned_apps.len()),
    {
        let mut r: Vec<usize> = Vec::new();
        let mut k: usize = 0;
        while k < self.config.pinned_apps.len()
            invariant
                self.wf(),
                k <= self@.config.pinned_apps.len(),
                r@ == pinned_positions(self@, k as nat),
            decreases self@.config.pinned_apps.len() - k,
        {
            if !self.has_shown_window_of(&self.config.pinned_apps[k]) {
                r.push(k);
            }
            k = k + 1;
        }
        r
    }

    /// The menu of the pinned item at position `k` of the pinned list.
    pub fn pinned_menu(&self, k: usize) -> (r: Vec<MenuEntry>)
        requires
            k < self@.config.pinned_apps.len(),
        ensures
            menu_view(r@) == pinned_menu_spec(k),
    {
        proof {
            reveal_strlit("Unpin from app tray");
        }
        let mut menu: Vec<MenuEntry> = Vec::new();
        push_entry(&mut menu, MenuEntry::Button("Unpin from app tray".to_owned(), WindowAction::UnpinPinned(k)));
        assert(menu_view(menu@) =~= pinned_menu_spec(k));
        menu
    }

    /// Whether window `i` is on an active workspace.
    fn on_active(&self, i: usize) -> (r: bool)
        requires
            i < self.windows@.len(),
        ensures
            r == on_active_workspace(self@.windows[i as int], self@.active_workspaces),
    {
        let ws = &self.windows[i].info.workspace;
        if ws.len() == 0 {
            return true;
        }
        let mut j: usize = 0;
        while j < ws.len()
            invariant
                i < self.windows@.len(),
                ws@ == self@.windows[i as int].workspace,
                ws@.len() > 0,
                j <= ws@.len(),
                forall|k: int| 0 <= k < j ==> !self@.active_workspaces.contains(#[trigger] ws@[k]),
            decreases ws@.len() - j,
        {
            let mut a: usize = 0;
            while a < self.active_workspaces.len()
                invariant
                    i < self.windows@.len(),
                    ws@ == self@.windows[i as int].workspace,
                    j < ws@.len(),
                    a <= self.active_workspaces@.len(),
                    forall|b: int| 0 <= b < a ==> #[trigger] self.active_workspaces@[b] != ws@[j as int],
                decreases self.active_workspaces@.len() - a,
            {
                if self.active_workspaces[a] == ws[j] {
                    assert(self@.active_workspaces.contains(ws@[j as int]));
                    return true;
                }
                a = a + 1;
            }
            j = j + 1;
        }
        false
    }

    /// The positions of the windows that are shown, in order.
    pub fn shown_windows(&self) -> (r: Vec<usize>)
        requires
            self.wf(),
        ensures
            r@ == shown_positions(self@, self@.windows.len()),
    {
        let mut r: Vec<usize> = Vec::new();
        let mut i: usize = 0;
        while i < self.windows.len()
            invariant
                i <= self.windows@.len(),
                r@ == shown_positions(self@, i as nat),
            decreases self.windows@.len() - i,
        {
            if self.config.show_all_workspaces || self.on_active(i) {
                r.push(i);
            }
            i = i + 1;
        }
        r
    }

    /// The menu of the window at position `i` (see `window_menu_spec`).
    #[verifier::spinoff_prover]
    #[verifier::rlimit(40)]
    pub fn window_menu(&self, i: usize) -> (r: Vec<MenuEntry>)
        requires
            self.wf(),
            i < self.windows@.len(),
        ensures
            menu_view(r@) == window_menu_spec(self@, i as int),
    {
        let w = &self.windows[i];
        let limit = self.config.context_menu_text_limit;
        let info = get_app_info(w.info.app_id.as_str(), w.info.title.as_str(), &self.app_map);
        let mut menu: Vec<MenuEntry> = Vec::new();
        let mut k: usize = 0;
        while k < info.actions.len()
            invariant
                k <= info.actions@.len(),
                menu_view(menu@) == action_buttons(actions_view(info.actions@), w.id, limit).take(k as int),
            decreases info.actions@.len() - k,
        {
            let label = truncate_text(info.actions[k].name.as_str(), limit);
            let ghost before = menu_view(menu@);
            push_entry(&mut menu, MenuEntry::Button(label, WindowAction::Spawn(w.id, k)));
            assert(menu_view(menu@) =~= action_buttons(actions_view(info.actions@), w.id, limit).take(k + 1));
            k = k + 1;
        }
        let ghost actions_part = menu_view(menu@);
        assert(actions_part =~= action_buttons(actions_view(info.actions@), w.id, limit));
        if info.actions.len() > 0 {
            push_entry(&mut menu, MenuEntry::Divider);
        }
        let ghost head = menu_view(menu@);
        let ghost same = same_app(self@.windows, w.info.app_id@);
        let mut count: usize = 0;
        let mut j: usize = 0;
        while j < self.windows.len()
            invariant
                i < self.windows@.len(),
                j <= self.windows@.len(),
                w == &self.windows@[i as int],
                count <= j,
                count == same_app(self@.windows.take(j as int), w.info.app_id@).len(),
                menu_view(menu@) == head + window_buttons(same_app(self@.windows.take(j as int), w.info.app_id@), limit),
            decreases self.windows@.len() - j,
        {
            let ghost prev = same_app(self@.windows.take(j as int), w.info.app_id@);
            assert(self@.windows.take(j + 1).drop_last() =~= self@.windows.take(j as int));
            let other = &self.windows[j];
            if other.info.app_id == w.info.app_id {
                let title = display_title(other.info.title.as_str());
                let label = truncate_text(title.as_str(), limit);
                push_entry(&mut menu, MenuEntry::Button(label, WindowAction::ActivateWindow(other.id)));
                assert(window_buttons(same_app(self@.windows.take(j + 1), w.info.app_id@), limit)
                    =~= window_buttons(prev, limit).push(MenuEntryView::Button(
                        truncated(display_title_of(other@.title), limit as nat),
                        WindowAction::ActivateWindow(other.id),
                    )));
                assert(menu_view(menu@) =~= head + window_buttons(same_app(self@.windows.take(j + 1), w.info.app_id@), limit));
                count = count + 1;
            }
            j = j + 1;
        }
        assert(self@.windows.take(self@.windows.len() as int) =~= self@.windows);
        if count > 0 {
            push_entry(&mut menu, MenuEntry::Divider);
        }
        proof {
            reveal_strlit("Pin to app tray");
            reveal_strlit("Unpin from app tray");
            reveal_strlit("Show current workspace only");
            reveal_strlit("Show all workspaces");
            reveal_strlit("Quit All");
            reveal_strlit("Quit");
        }
        if pinned_contains(&self.config.pinned_apps, &w.info.app_id) {
            push_entry(&mut menu, MenuEntry::Button("Unpin from app tray".to_owned(), WindowAction::Unpin(w.id)));
        } else {
            push_entry(&mut menu, MenuEntry::Button("Pin to app tray".to_owned(), WindowAction::Pin(w.id)));
        }
        if self.config.show_all_workspaces {
            push_entry(
                &mut menu,
                MenuEntry::Button("Show current workspace only".to_owned(), WindowAction::ToggleAllWorkspaces),
            );
        } else {
            push_entry(
                &mut menu,
                MenuEntry::Button("Show all workspaces".to_owned(), WindowAction::ToggleAllWorkspaces),
            );
        }
        push_entry(&mut menu, MenuEntry::Divider);
        if count > 1 {
            push_entry(&mut menu, MenuEntry::Button("Quit All".to_owned(), WindowAction::CloseAll(w.id)));
        } else {
            push_entry(&mut menu, MenuEntry::Button("Quit".to_owned(), WindowAction::Close(w.id)));
        }
        assert(menu_view(menu@) =~= window_menu_spec(self@, i as int));
        menu
    }
}

// ---------------------------------------------------------------------
// Laws
// ---------------------------------------------------------------------
proof fn lemma_filter_keeps_all(ws: Seq<WindowView>, h: u64)
    requires
        !has_handle(ws, h),
    ensures
        ws.filter(keeps_handle(h)) == ws,
    decreases ws.len(),
{
    if ws.len() == 0 {
        reveal(Seq::filter);
    } else {
        if has_handle(ws.drop_last(), h) {
            let i = choose|i: int| 0 <= i < ws.drop_last().len() && #[trigger] ws.drop_last()[i].handle == h;
            assert(ws[i].handle == h);
        }
        lemma_filter_keeps_all(ws.drop_last(), h);
        ws.drop_last().lemma_filter_push(ws.last(), keeps_handle(h));
        assert(ws.drop_last().push(ws.last()) =~= ws);
    }
}

/// Adding a window under a new handle and then removing that handle gives
/// back the window list as it was.
pub proof fn lemma_add_then_remove_restores(s: AppletView, info: WindowInfo, h: u64)
    requires
        windows_wf(s.windows, s.next_id),
        s.next_id < usize::MAX,
        !has_handle(s.windows, h),
    ensures
        applet_step(
            applet_step(s, Message::WaylandUpdate(WaylandUpdate::Toplevel(ToplevelUpdate::Add(info, h)))),
            Message::WaylandUpdate(WaylandUpdate::Toplevel(ToplevelUpdate::Remove(h))),
        ).windows == s.windows,
{
    let x = new_window(s, info, h);
    s.windows.lemma_filter_push(x, keeps_handle(h));
    lemma_filter_keeps_all(s.windows, h);
}

/// After `Remove(h)` no window has the handle `h`, and every other window is
/// still there.
pub proof fn lemma_remove_drops_only_the_handle(s: AppletView, h: u64)
    ensures
        ({
            let r = applet_step(s, Message::WaylandUpdate(WaylandUpdate::Toplevel(ToplevelUpdate::Remove(h))));
            &&& !has_handle(r.windows, h)
            &&& forall|i: int|
                0 <= i < s.windows.len() && s.windows[i].handle != h ==> r.windows.contains(
                    #[trigger] s.windows[i],
                )
        }),
{
    let r = s.windows.filter(keeps_handle(h));
    if has_handle(r, h) {
        let i = choose|i: int| 0 <= i < r.len() && #[trigger] r[i].handle == h;
        s.windows.lemma_filter_pred(keeps_handle(h), i);
    }
    assert forall|i: int| 0 <= i < s.windows.len() && s.windows[i].handle != h implies r.contains(
        #[trigger] s.windows[i],
    ) by {
        s.windows.lemma_filter_contains(keeps_handle(h), i);
    }
}

/// A window keeps its id for as long as its handle stays: whatever the
/// message, a window before and a window after with the same handle have
/// the same id.
pub proof fn lemma_window_ids_are_stable(s: AppletView, m: Message)
    requires
        windows_wf(s.windows, s.next_id),
        message_allowed(s, m),
    ensures
        forall|i: int, j: int|
            0 <= i < s.windows.len() && 0 <= j < applet_step(s, m).windows.len()
                && #[trigger] s.windows[i].handle == #[trigger] applet_step(s, m).windows[j].handle
                ==> s.windows[i].id == applet_step(s, m).windows[j].id,
{
    let t = applet_step(s, m);
    let ws = s.windows;
    assert forall|i: int, j: int|
        0 <= i < ws.len() && 0 <= j < t.windows.len() && #[trigger] ws[i].handle
            == #[trigger] t.windows[j].handle implies ws[i].id == t.windows[j].id by {
        match m {
            Message::WaylandUpdate(WaylandUpdate::Toplevel(u)) => {
                match u {
                    ToplevelUpdate::Add(info, h) => {
                        if !has_handle(ws, h) && j == ws.len() {
                            assert(ws[i].handle == h);
                        } else if i != j {
                            assert(ws[i].handle != ws[j].handle);
                        }
                    },
                    ToplevelUpdate::Update(info, h) => {
                        if has_handle(ws, h) {
                            let k = handle_index(ws, h);
                            if j == k {
                                if i != k {
                                    assert(ws[i].handle != ws[k].handle);
                                }
                            } else if i != j {
                                assert(ws[i].handle != ws[j].handle);
                            }
                        } else if j == ws.len() {
                            assert(ws[i].handle == h);
                        } else if i != j {
                            assert(ws[i].handle != ws[j].handle);
                        }
                    },
                    ToplevelUpdate::Remove(h) => {
                        let r = ws.filter(keeps_handle(h));
                        assert(r.contains(r[j]));
                        ws.lemma_filter_contains_rev(keeps_handle(h), r[j]);
                        let k = choose|k: int| 0 <= k < ws.len() && ws[k] == r[j];
                        if i != k {
                            assert(ws[i].handle != ws[k].handle);
                        }
                    },
                }
            },
            _ => {
                if i != j {
                    assert(ws[i].handle != ws[j].handle);
                }
            },
        }
    }
}

/// With every workspace shown, every window is shown, in order.
pub proof fn lemma_show_all_shows_every_window(s: AppletView, n: nat)
    requires
        s.config.show_all_workspaces,
        n <= s.windows.len(),
        n <= usize::MAX,
    ensures
        shown_positions(s, n) == Seq::new(n, |i: int| i as usize),
    decreases n,
{
    if n > 0 {
        lemma_show_all_shows_every_window(s, (n - 1) as nat);
        assert(Seq::new((n - 1) as nat, |i: int| i as usize).push((n - 1) as usize) =~= Seq::new(
            n,
            |i: int| i as usize,
        ));
    } else {
        assert(Seq::<usize>::empty() =~= Seq::new(0, |i: int| i as usize));
    }
}


/// Pinning through a window's menu adds the window's application to the
/// pinned list and keeps every earlier entry in its place; the windows stay.
pub proof fn lemma_pin_adds_and_keeps(s: AppletView, id: usize)
    requires
        has_id(s.windows, id),
    ensures
        ({
            let t = applet_step(s, Message::Pin(id));
            let app_id = s.windows[id_index(s.windows, id)].app_id;
            &&& t.config.pinned_apps.contains(app_id)
            &&& s.config.pinned_apps.len() <= t.config.pinned_apps.len()
            &&& forall|j: int|
                0 <= j < s.config.pinned_apps.len() ==> #[trigger] t.config.pinned_apps[j]
                    == s.config.pinned_apps[j]
            &&& t.windows == s.windows
        }),
{
    let p = s.config.pinned_apps;
    let app_id = s.windows[id_index(s.windows, id)].app_id;
    if !p.contains(app_id) {
        assert(p.push(app_id)[p.len() as int] == app_id);
    }
}

proof fn lemma_pinned_without(p: Seq<Seq<char>>, a: Seq<char>)
    ensures
        forall|x: Seq<char>| #[trigger] pinned_without(p, a).contains(x) <==> (p.contains(x) && x != a),
    decreases p.len(),
{
    if p.len() > 0 {
        let q = p.drop_last();
        lemma_pinned_without(q, a);
        let r = pinned_without(p, a);
        assert forall|x: Seq<char>| #[trigger] r.contains(x) <==> (p.contains(x) && x != a) by {
            if r.contains(x) {
                let j = choose|j: int| 0 <= j < r.len() && r[j] == x;
                if p.last() != a && j == r.len() - 1 {
                    assert(p[p.len() - 1] == x);
                } else {
                    assert(pinned_without(q, a).contains(x));
                    let k = choose|k: int| 0 <= k < q.len() && q[k] == x;
                    assert(p[k] == x);
                }
            }
            if p.contains(x) && x != a {
                let k = choose|k: int| 0 <= k < p.len() && p[k] == x;
                if k == p.len() - 1 {
                    assert(r[r.len() - 1] == x);
                } else {
                    assert(q[k] == x);
                    assert(pinned_without(q, a).contains(x));
                    let j = choose|j: int| 0 <= j < pinned_without(q, a).len() && pinned_without(q, a)[j] == x;
                    assert(r[j] == x);
                }
            }
        }
    }
}

/// Unpinning through a window's menu removes the window's application from
/// the pinned list and keeps every other pinned application.
pub proof fn lemma_unpin_removes_only_that_app(s: AppletView, id: usize)
    requires
        has_id(s.windows, id),
    ensures
        ({
            let t = applet_step(s, Message::Unpin(id));
            let app_id = s.windows[id_index(s.windows, id)].app_id;
            &&& !t.config.pinned_apps.contains(app_id)
            &&& forall|x: Seq<char>|
                x != app_id ==> (#[trigger] t.config.pinned_apps.contains(x)
                    <==> s.config.pinned_apps.contains(x))
        }),
{
    lemma_pinned_without(s.config.pinned_apps, s.windows[id_index(s.windows, id)].app_id);
}

proof fn lemma_pinned_positions_contains(s: AppletView, n: nat, k: int)
    requires
        0 <= k < n <= s.config.pinned_apps.len(),
        n <= usize::MAX,
        !has_shown_window(s, s.config.pinned_apps[k]),
    ensures
        pinned_positions(s, n).contains(k as usize),
    decreases n,
{
    let r = pinned_positions(s, (n - 1) as nat);
    if k == n - 1 {
        assert(pinned_positions(s, n)[r.len() as int] == k as usize);
    } else {
        lemma_pinned_positions_contains(s, (n - 1) as nat, k);
        let j = choose|j: int| 0 <= j < r.len() && r[j] == k as usize;
        assert(pinned_positions(s, n)[j] == k as usize);
    }
}

/// A pinned application is always in the tray: some shown window belongs
/// to it, or it is drawn as a pinned item, as it is when all its windows
/// are closed.
pub proof fn lemma_pinned_app_stays_visible(s: AppletView, k: int)
    requires
        0 <= k < s.config.pinned_apps.len(),
        s.config.pinned_apps.len() <= usize::MAX,
    ensures
        has_shown_window(s, s.config.pinned_apps[k]) || pinned_positions(
            s,
            s.config.pinned_apps.len(),
        ).contains(k as usize),
{
    if !has_shown_window(s, s.config.pinned_apps[k]) {
        lemma_pinned_positions_contains(s, s.config.pinned_apps.len(), k);
    }
}

/// The desktop action that a window's menu names is the one that runs: the
/// menu's entry for the `k`-th action of the window's application is
/// labelled with that action's name and sends `Spawn(id, k)`, and handling
/// `Spawn(id, k)` runs that same action's command, without its field codes.
pub proof fn lemma_spawn_runs_the_labelled_action(s: AppletView, i: int, k: usize)
    requires
        windows_wf(s.windows, s.next_id),
        0 <= i < s.windows.len(),
        k < window_app_info(s.windows[i].app_id, s.windows[i].title, s.app_map).actions.len(),
    ensures
        ({
            let w = s.windows[i];
            let action = window_app_info(w.app_id, w.title, s.app_map).actions[k as int];
            &&& window_menu_spec(s, i)[k as int] == MenuEntryView::Button(
                truncated(action.name, s.config.context_menu_text_limit as nat),
                WindowAction::Spawn(w.id, k),
            )
            &&& applet_effect(s, Message::Spawn(w.id, k)) == EffectView::SpawnShell(
                exec_args_stripped(action.command),
            )
        }),
{
    lemma_id_index(s.windows, s.next_id, i);
    let w = s.windows[i];
    let info = window_app_info(w.app_id, w.title, s.app_map);
    let buttons = action_buttons(info.actions, w.id, s.config.context_menu_text_limit);
    let m = window_menu_spec(s, i);
    assert(buttons.len() == info.actions.len());
    assert(m[k as int] == buttons[k as int]);
}

/// Unpinning the pinned item at position `k` removes the application that
/// stands at position `k` of the pinned list and keeps every other pinned
/// application; the item's menu entry is the one that sends it.
pub proof fn lemma_unpin_pinned_removes_that_item(s: AppletView, k: int)
    requires
        0 <= k < s.config.pinned_apps.len(),
        s.config.pinned_apps.len() <= usize::MAX,
    ensures
        ({
            let t = applet_step(s, Message::UnpinPinned(k as usize));
            let app_id = s.config.pinned_apps[k];
            &&& !t.config.pinned_apps.contains(app_id)
            &&& forall|x: Seq<char>|
                x != app_id ==> (#[trigger] t.config.pinned_apps.contains(x)
                    <==> s.config.pinned_apps.contains(x))
            &&& t.windows == s.windows
            &&& pinned_menu_spec(k as usize) == seq![
                MenuEntryView::Button("Unpin from app tray"@, WindowAction::UnpinPinned(k as usize)),
            ]
        }),
{
    lemma_pinned_without(s.config.pinned_apps, s.config.pinned_apps[k]);
}

proof fn lemma_shown_positions_member(s: AppletView, n: nat, i: int)
    requires
        n <= s.windows.len(),
        n <= usize::MAX,
        0 <= i < s.windows.len(),
        s.windows.len() <= usize::MAX,
    ensures
        shown_positions(s, n).contains(i as usize) <==> (i < n && is_shown(s, s.windows[i])),
    decreases n,
{
    if n > 0 {
        let rest = shown_positions(s, (n - 1) as nat);
        lemma_shown_positions_member(s, (n - 1) as nat, i);
        lemma_shown_positions_below(s, (n - 1) as nat);
        let r = shown_positions(s, n);
        if is_shown(s, s.windows[n - 1]) {
            assert(r == rest.push((n - 1) as usize));
            if i == n - 1 {
                assert(r[rest.len() as int] == i as usize);
            } else if i < n - 1 && is_shown(s, s.windows[i]) {
                let j = choose|j: int| 0 <= j < rest.len() && rest[j] == i as usize;
                assert(r[j] == i as usize);
            }
            if r.contains(i as usize) {
                let j = choose|j: int| 0 <= j < r.len() && r[j] == i as usize;
                if j < rest.len() {
                    assert(rest.contains(i as usize));
                }
            }
        }
    }
}

proof fn lemma_shown_positions_below(s: AppletView, n: nat)
    requires
        n <= s.windows.len(),
        n <= usize::MAX,
    ensures
        forall|j: int| 0 <= j < shown_positions(s, n).len() ==> #[trigger] shown_positions(s, n)[j] < n,
    decreases n,
{
    if n > 0 {
        lemma_shown_positions_below(s, (n - 1) as nat);
        let rest = shown_positions(s, (n - 1) as nat);
        if is_shown(s, s.windows[n - 1]) {
            assert forall|j: int| 0 <= j < shown_positions(s, n).len() implies #[trigger] shown_positions(
                s,
                n,
            )[j] < n by {
                if j < rest.len() {
                    assert(shown_positions(s, n)[j] == rest[j]);
                }
            }
        }
    }
}

/// With the workspace filter on, a window is shown exactly when it names
/// no workspace or one of its workspaces is one of the active workspaces,
/// wherever in the active list that workspace stands; with the filter off,
/// every window is shown.
pub proof fn lemma_shown_iff_on_an_active_workspace(s: AppletView, i: int)
    requires
        0 <= i < s.windows.len(),
        s.windows.len() <= usize::MAX,
    ensures
        shown_positions(s, s.windows.len()).contains(i as usize) <==> (s.config.show_all_workspaces
            || s.windows[i].workspace.len() == 0 || exists|j: int, a: int|
            0 <= j < s.windows[i].workspace.len() && 0 <= a < s.active_workspaces.len()
                && #[trigger] s.windows[i].workspace[j] == #[trigger] s.active_workspaces[a]),
{
    lemma_shown_positions_member(s, s.windows.len(), i);
    let ws = s.windows[i].workspace;
    let active = s.active_workspaces;
    if exists|j: int, a: int|
        0 <= j < ws.len() && 0 <= a < active.len() && #[trigger] ws[j] == #[trigger] active[a] {
        let (j, a) = choose|j: int, a: int|
            0 <= j < ws.len() && 0 <= a < active.len() && #[trigger] ws[j] == #[trigger] active[a];
        assert(active.contains(ws[j]));
    }
    if ws.len() > 0 && on_active_workspace(s.windows[i], active) {
        let j = choose|j: int| 0 <= j < ws.len() && active.contains(#[trigger] ws[j]);
        let a = choose|a: int| 0 <= a < active.len() && active[a] == ws[j];
        assert(ws[j] == active[a]);
    }
}

} // verus!
