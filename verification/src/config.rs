//! The applet's persistent settings.
use vstd::prelude::*;

verus! {

/// The applet's settings, as the configuration store keeps them.
#[derive(Debug, Clone, PartialEq, Eq)]
pub struct Config {
    pub show_all_workspaces: bool,
    pub context_menu_text_limit: usize,
    pub pinned_apps: Vec<String>,
    pub expand_centered: bool,
}

/// The characters of each string of `v`, in order.
pub open spec fn strings_view(v: Seq<String>) -> Seq<Seq<char>> {
    v.map_values(|s: String| s@)
}

/// The settings as plain values.
pub struct ConfigView {
    pub show_all_workspaces: bool,
    pub context_menu_text_limit: usize,
    pub pinned_apps: Seq<Seq<char>>,
    pub expand_centered: bool,
}

impl View for Config {
    type V = ConfigView;

    open spec fn view(&self) -> ConfigView {
        ConfigView {
            show_all_workspaces: self.show_all_workspaces,
            context_menu_text_limit: self.context_menu_text_limit,
            pinned_apps: strings_view(self.pinned_apps@),
            expand_centered: self.expand_centered,
        }
    }
}

/// The settings of a fresh installation.
pub open spec fn default_config() -> ConfigView {
    ConfigView {
        show_all_workspaces: false,
        context_menu_text_limit: 25,
        pinned_apps: seq![],
        expand_centered: true,
    }
}

impl Default for Config {
    fn default() -> (r: Self)
        ensures
            r@ == default_config(),
    {
        let r = Config {
            show_all_workspaces: false,
            context_menu_text_limit: 25,
            pinned_apps: Vec::new(),
            expand_centered: true,
        };
        assert(r@.pinned_apps =~= Seq::<Seq<char>>::empty());
        r
    }
}

} // verus!
