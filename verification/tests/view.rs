use radiome::api::{Catalog, Genre, Station, Track};
use radiome::app::{App, KeyCode, KeyEvent, KeyModifiers};
use radiome::player::PlayerState;
use radiome::settings::Settings;
use radiome::view::{
    category_width, empty_stations_text, favorite_marker, fits_screen, help_hint, help_offset,
    help_popup, history_panel_height, history_placeholder, is_current, now_playing_name,
    playback_symbol, shows_history_panel, station_marker, status_text, track_text,
};

fn station(id: i64, title: &str) -> Station {
    Station {
        id,
        title: title.to_string(),
        prefix: String::new(),
        tooltip: String::new(),
        stream_320: "https://example.com/radio".to_string(),
        stream_64: String::new(),
        stream_128: String::new(),
        stream_hls: String::new(),
        icon_fill: String::new(),
        genres: vec![Genre { id: 7, name: "Электроника".to_string() }],
    }
}

fn track(artist: &str, song: &str) -> Track {
    Track {
        id: 1,
        artist: artist.to_string(),
        song: song.to_string(),
        image100: String::new(),
        image200: String::new(),
        time_formatted: "12:34".to_string(),
    }
}

fn fixture() -> App {
    let mut app = App::new(Settings::default());
    app.set_catalog(Catalog {
        stations: vec![station(1, "Record"), station(2, "Techno")],
        genres: vec![],
        tags: vec![],
    });
    app
}

fn press(app: &mut App, code: KeyCode) {
    app.key(KeyEvent::new(code, KeyModifiers::none()));
}

#[test]
fn layout_sizes() {
    assert!(fits_screen(44, 12));
    assert!(!fits_screen(43, 12));
    assert!(!fits_screen(80, 11));
    assert_eq!(category_width(120), 25);
    assert_eq!(category_width(80), 18);
    assert!(shows_history_panel(true, 12));
    assert!(!shows_history_panel(true, 11));
    assert!(!shows_history_panel(false, 30));
    assert_eq!(history_panel_height(12), 5);
    assert_eq!(history_panel_height(21), 7);
    assert_eq!(history_panel_height(36), 8);
}

#[test]
fn help_window_is_centred_and_scrolls() {
    assert_eq!(help_popup(0, 0, 80, 24), (14, 3, 52, 17));
    assert_eq!(help_popup(0, 0, 44, 12), (2, 0, 40, 12));
    assert_eq!(help_popup(5, 5, 2, 2), (6, 5, 0, 2));
    assert_eq!(help_offset(14, 17), 0);
    assert_eq!(help_offset(14, 12), 5);
    assert_eq!(help_offset(3, 12), 3);
    assert_eq!(help_offset(20, 2), 13);
    assert_eq!(help_hint(12), " ↑↓  ? / Esc ");
    assert_eq!(help_hint(17), " ? / Esc ");
}

#[test]
fn favorite_marker_only_appears_outside_favorites() {
    let mut app = fixture();
    press(&mut app, KeyCode::Char('f'));
    let record = station(1, "Record");
    assert_eq!(favorite_marker(&app, &record), "  +");
    assert_eq!(favorite_marker(&app, &station(2, "Techno")), "");
    press(&mut app, KeyCode::Tab);
    assert_eq!(favorite_marker(&app, &record), "");
}

#[test]
fn empty_states_are_named() {
    let mut app = App::new(Settings::default());
    assert_eq!(empty_stations_text(&app), "Loading…");
    app.loading = false;
    app.error = Some("down".to_string());
    assert_eq!(empty_stations_text(&app), "Stations unavailable · r retry");
    assert_eq!(status_text(&app), "down");
    app.error = None;
    assert_eq!(empty_stations_text(&app), "No stations");
    assert_eq!(status_text(&app), "");
    press(&mut app, KeyCode::Tab);
    assert_eq!(empty_stations_text(&app), "No favorites · f to add");
}

#[test]
fn the_playing_station_is_marked() {
    let mut app = fixture();
    let record = station(1, "Record");
    assert!(!is_current(&app, &record));
    assert_eq!(station_marker(&app, &record), "  ");
    assert_eq!(now_playing_name(&app), "Stopped");
    press(&mut app, KeyCode::Enter);
    assert!(is_current(&app, &record));
    assert_eq!(station_marker(&app, &record), "· ");
    app.playback.state = PlayerState::Playing;
    assert_eq!(station_marker(&app, &record), "▶ ");
    app.playback.state = PlayerState::Paused;
    assert_eq!(station_marker(&app, &record), "Ⅱ ");
    app.playback.state = PlayerState::Error;
    assert_eq!(station_marker(&app, &record), "  ");
    assert_eq!(station_marker(&app, &station(2, "Techno")), "  ");
    assert_eq!(now_playing_name(&app), "Record");
}

#[test]
fn playback_symbols() {
    assert_eq!(playback_symbol(PlayerState::Idle), "○");
    assert_eq!(playback_symbol(PlayerState::Buffering), "·");
    assert_eq!(playback_symbol(PlayerState::Playing), "▶");
    assert_eq!(playback_symbol(PlayerState::Paused), "Ⅱ");
    assert_eq!(playback_symbol(PlayerState::Error), "!");
}

#[test]
fn track_line_and_history_placeholder() {
    let mut app = fixture();
    assert_eq!(track_text(&app), "");
    assert_eq!(history_placeholder(&app), Some(""));
    press(&mut app, KeyCode::Enter);
    assert_eq!(track_text(&app), "Loading track…");
    assert_eq!(history_placeholder(&app), Some("Loading…"));
    app.set_history(1, vec![track("Артист", "Очень длинное название трека 音楽 🎵")]);
    assert_eq!(track_text(&app), "Артист — Очень длинное название трека 音楽 🎵");
    assert_eq!(history_placeholder(&app), Some("No track history"));
    app.history.push(track("A", "B"));
    assert_eq!(history_placeholder(&app), None);
    app.history_error = Some("History unavailable".to_string());
    app.history.truncate(1);
    assert_eq!(history_placeholder(&app), Some("History unavailable"));
    app.playback.error = Some("Stream unavailable: mpv error".to_string());
    assert_eq!(track_text(&app), "Stream unavailable: mpv error");
}
