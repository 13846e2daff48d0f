//! The settings that persist between runs: favourite stations and player volume.
use std::collections::BTreeSet;

use vstd::prelude::*;

verus! {

broadcast use vstd::std_specs::btree::group_btree_axioms, vstd::laws_cmp::group_laws_cmp;

/// Favourite stations (by id) and the player volume in percent.
#[derive(Debug)]
pub struct Settings {
    pub favorites: BTreeSet<i64>,
    pub volume: u8,
}

/// The volume that the settings start with.
pub const DEFAULT_VOLUME: u8 = 65;

/// The largest volume.
pub const MAX_VOLUME: u8 = 100;

impl Default for Settings {
    fn default() -> (r: Self)
        ensures
            r.favorites@ == Set::<i64>::empty(),
            r.volume == DEFAULT_VOLUME,
    {
        Settings { favorites: BTreeSet::new(), volume: DEFAULT_VOLUME }
    }
}

impl Clone for Settings {
    fn clone(&self) -> (r: Self)
        ensures
            r.favorites@ == self.favorites@,
            r.volume == self.volume,
    {
        Settings { favorites: self.favorites.clone(), volume: self.volume }
    }
}

/// The favourites with `id` added, or removed when it is one.
pub open spec fn toggled(favorites: Set<i64>, id: i64) -> Set<i64> {
    if favorites.contains(id) {
        favorites.remove(id)
    } else {
        favorites.insert(id)
    }
}

impl Settings {
    /// The settings with the volume limited to `MAX_VOLUME`, as they are after loading.
    pub fn normalized(self) -> (r: Self)
        ensures
            r.favorites@ == self.favorites@,
            r.volume == (if self.volume > MAX_VOLUME { MAX_VOLUME } else { self.volume }),
    {
        let volume = if self.volume > MAX_VOLUME { MAX_VOLUME } else { self.volume };
        Settings { favorites: self.favorites, volume }
    }

    /// Adds `id` to the favourites, or removes it when it is one; true when it was added.
    pub fn toggle_favorite(&mut self, id: i64) -> (added: bool)
        ensures
            added == !old(self).favorites@.contains(id),
            final(self).favorites@ == toggled(old(self).favorites@, id),
            final(self).volume == old(self).volume,
    {
        if !self.favorites.remove(&id) {
            self.favorites.insert(id);
            true
        } else {
            false
        }
    }
}

/// The directory that holds the settings file, in order of precedence.
#[derive(Debug, Clone, Copy, PartialEq, Eq, Structural)]
pub enum ConfigBase {
    /// `RADIOME_CONFIG_DIR`
    ConfigDir,
    /// `XDG_CONFIG_HOME`
    XdgConfigHome,
    /// `HOME`
    Home,
}

/// Where the settings file lies: a base directory and the path below it, from
/// which of `RADIOME_CONFIG_DIR`, `XDG_CONFIG_HOME` and `HOME` are set; `None`
/// when none is.
pub fn settings_location(config_dir_set: bool, xdg_config_home_set: bool, home_set: bool) -> (r: Option<(ConfigBase, &'static str)>)
    ensures
        config_dir_set ==> (r matches Some(x) && x.0 == ConfigBase::ConfigDir && x.1@
            == "settings.json"@),
        !config_dir_set && xdg_config_home_set ==> (r matches Some(x) && x.0
            == ConfigBase::XdgConfigHome && x.1@ == "radiome/settings.json"@),
        !config_dir_set && !xdg_config_home_set && home_set ==> (r matches Some(x) && x.0
            == ConfigBase::Home && x.1@ == ".config/radiome/settings.json"@),
        !config_dir_set && !xdg_config_home_set && !home_set ==> r is None,
{
    if config_dir_set {
        Some((ConfigBase::ConfigDir, "settings.json"))
    } else if xdg_config_home_set {
        Some((ConfigBase::XdgConfigHome, "radiome/settings.json"))
    } else if home_set {
        Some((ConfigBase::Home, ".config/radiome/settings.json"))
    } else {
        None
    }
}

} // verus!
