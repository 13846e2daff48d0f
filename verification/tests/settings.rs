use std::collections::BTreeSet;

use radiome::settings::{settings_location, ConfigBase, Settings, DEFAULT_VOLUME, MAX_VOLUME};

#[test]
fn default_settings_have_no_favorites_and_default_volume() {
    let settings = Settings::default();
    assert!(settings.favorites.is_empty());
    assert_eq!(settings.volume, DEFAULT_VOLUME);
    assert_eq!(DEFAULT_VOLUME, 65);
    assert_eq!(MAX_VOLUME, 100);
}

#[test]
fn loaded_volume_is_limited() {
    let settings = Settings { favorites: BTreeSet::from([12, 34]), volume: 250 }.normalized();
    assert_eq!(settings.volume, 100);
    assert_eq!(settings.favorites, BTreeSet::from([12, 34]));
    let settings = Settings { favorites: BTreeSet::new(), volume: 35 }.normalized();
    assert_eq!(settings.volume, 35);
}

#[test]
fn toggling_a_favorite_twice_restores_it() {
    let mut settings = Settings::default();
    assert!(settings.toggle_favorite(12));
    assert!(settings.favorites.contains(&12));
    assert!(!settings.toggle_favorite(12));
    assert!(settings.favorites.is_empty());
    assert_eq!(settings.volume, DEFAULT_VOLUME);
}

#[test]
fn settings_location_follows_the_precedence_of_variables() {
    assert_eq!(settings_location(true, true, true), Some((ConfigBase::ConfigDir, "settings.json")));
    assert_eq!(
        settings_location(false, true, true),
        Some((ConfigBase::XdgConfigHome, "radiome/settings.json"))
    );
    assert_eq!(
        settings_location(false, false, true),
        Some((ConfigBase::Home, ".config/radiome/settings.json"))
    );
    assert_eq!(settings_location(false, false, false), None);
}
