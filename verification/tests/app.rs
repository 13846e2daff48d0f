use radiome::api::{Catalog, Genre, Station, Track};
use radiome::app::{Action, App, Category, KeyCode, KeyEvent, KeyEventKind, KeyModifiers, MediaKeyCode};
use radiome::player::PlayerState;
use radiome::settings::Settings;

fn genre(id: i64, name: &str) -> Genre {
    Genre { id, name: name.to_string() }
}

fn station(id: i64, title: &str, stream: &str, genres: Vec<Genre>) -> Station {
    Station {
        id,
        title: title.to_string(),
        prefix: title.to_lowercase(),
        tooltip: String::new(),
        stream_320: stream.to_string(),
        stream_64: String::new(),
        stream_128: String::new(),
        stream_hls: String::new(),
        icon_fill: String::new(),
        genres,
    }
}

fn fixture() -> App {
    let stations = ["Record", "Синтвейв", "Techno"]
        .iter()
        .enumerate()
        .map(|(i, title)| {
            let genres = if i > 0 { vec![genre(7, "Электроника")] } else { vec![] };
            station(i as i64 + 1, title, "https://example.com/radio", genres)
        })
        .collect();
    let mut app = App::new(Settings::default());
    app.set_catalog(Catalog { stations, genres: vec![genre(7, "Электроника")], tags: vec![] });
    app
}

fn press(app: &mut App, code: KeyCode) -> Action {
    app.key(KeyEvent::new(code, KeyModifiers::none()))
}

fn track(id: i64) -> Track {
    Track {
        id,
        artist: "Artist".to_string(),
        song: "Song".to_string(),
        image100: String::new(),
        image200: String::new(),
        time_formatted: "12:00".to_string(),
    }
}

#[test]
fn tab_changes_categories_and_arrows_only_select_stations() {
    let mut app = fixture();
    press(&mut app, KeyCode::Down);
    press(&mut app, KeyCode::Char('f'));
    press(&mut app, KeyCode::Tab);
    assert_eq!(*app.current_category(), Category::Favorites);
    assert_eq!(app.selected_station().unwrap().id, 2);
    for key in [KeyCode::Up, KeyCode::Down, KeyCode::Left, KeyCode::Right] {
        press(&mut app, key);
        assert_eq!(*app.current_category(), Category::Favorites);
    }
    press(&mut app, KeyCode::Char('f'));
    assert!(app.selected_station().is_none());
    press(&mut app, KeyCode::Tab);
    assert_eq!(app.visible().len(), 2);
    press(&mut app, KeyCode::Tab);
    assert_eq!(*app.current_category(), Category::All);
    press(&mut app, KeyCode::BackTab);
    assert_eq!(app.visible().len(), 2);
    assert!(app.now.is_none());
}

#[test]
fn media_keys_control_playback_and_wrap_within_the_category() {
    let mut app = fixture();
    assert!(matches!(press(&mut app, KeyCode::F(8)), Action::Play(_)));
    app.playback.state = PlayerState::Playing;
    assert!(matches!(press(&mut app, KeyCode::F(8)), Action::Pause));
    press(&mut app, KeyCode::Down);
    press(&mut app, KeyCode::F(9));
    assert_eq!(app.now.as_ref().unwrap().id, 2);
    press(&mut app, KeyCode::F(7));
    assert_eq!(app.now.as_ref().unwrap().id, 1);
    press(&mut app, KeyCode::Media(MediaKeyCode::TrackPrevious));
    assert_eq!(app.now.as_ref().unwrap().id, 3);
    press(&mut app, KeyCode::Media(MediaKeyCode::TrackNext));
    assert_eq!(app.now.as_ref().unwrap().id, 1);
    app.help = true;
    assert!(matches!(press(&mut app, KeyCode::Media(MediaKeyCode::PlayPause)), Action::Pause));
    let mut repeat = KeyEvent::new(KeyCode::F(9), KeyModifiers::none());
    repeat.kind = KeyEventKind::Repeat;
    assert!(matches!(app.key(repeat), Action::Nothing));
}

#[test]
fn transport_handles_empty_categories_and_missing_streams() {
    let mut app = fixture();
    press(&mut app, KeyCode::Tab);
    for code in [KeyCode::F(7), KeyCode::F(8), KeyCode::F(9)] {
        assert!(matches!(press(&mut app, code), Action::Nothing));
    }
    press(&mut app, KeyCode::Tab);
    app.catalog.as_mut().unwrap().stations[1].stream_320.clear();
    press(&mut app, KeyCode::F(9));
    assert_eq!(app.now.as_ref().unwrap().id, 3);
}

#[test]
fn browsing_and_stale_history_never_change_playing_station() {
    let mut app = fixture();
    assert!(matches!(press(&mut app, KeyCode::Enter), Action::Play(_)));
    press(&mut app, KeyCode::Down);
    assert_eq!(app.now.as_ref().unwrap().id, 1);
    app.set_history(2, vec![]);
    assert!(app.history_loading);
    app.set_history(1, vec![]);
    assert!(!app.history_loading);
    assert_eq!(app.selected_station().unwrap().id, 2);
}

#[test]
fn volume_is_bounded_and_search_is_removed() {
    let mut app = fixture();
    for _ in 0..30 {
        press(&mut app, KeyCode::Char('='));
    }
    assert_eq!(app.settings.volume, 100);
    for _ in 0..30 {
        press(&mut app, KeyCode::Char('-'));
    }
    assert_eq!(app.settings.volume, 0);
    press(&mut app, KeyCode::Char('/'));
    assert!(matches!(press(&mut app, KeyCode::Char('q')), Action::Quit));
}

#[test]
fn new_app_starts_on_all_with_two_categories() {
    let app = App::new(Settings::default());
    assert_eq!(app.categories.len(), 2);
    assert_eq!(*app.current_category(), Category::All);
    assert!(app.loading);
    assert!(app.visible().is_empty());
    assert!(app.selected_station().is_none());
}

#[test]
fn set_catalog_adds_genres_used_by_stations_once_and_keeps_the_category() {
    let stations = vec![
        station(1, "A", "u", vec![genre(3, "Rock")]),
        station(2, "B", "u", vec![genre(3, "Rock"), genre(9, "Jazz")]),
    ];
    let mut app = App::new(Settings::default());
    // Listed genre 5 is used by no station; genre 9 is used but not listed.
    app.set_catalog(Catalog {
        stations,
        genres: vec![genre(5, "Unused"), genre(3, "Rock")],
        tags: vec![],
    });
    assert_eq!(app.categories.len(), 4);
    assert_eq!(app.categories[2], Category::Genre(3, "Rock".to_string()));
    assert_eq!(app.categories[3], Category::Genre(9, "Jazz".to_string()));
    assert!(!app.loading);
    press(&mut app, KeyCode::BackTab);
    assert_eq!(*app.current_category(), Category::Genre(9, "Jazz".to_string()));
    let again = vec![station(4, "C", "u", vec![genre(9, "Jazz")])];
    app.set_catalog(Catalog { stations: again, genres: vec![], tags: vec![] });
    assert_eq!(*app.current_category(), Category::Genre(9, "Jazz".to_string()));
    assert_eq!(app.selected_station().unwrap().id, 4);
}

#[test]
fn category_titles_translate_known_genres() {
    assert_eq!(Category::All.title(), "All");
    assert_eq!(Category::Favorites.title(), "Favorites");
    assert_eq!(Category::Genre(1, "Лето".to_string()).title(), "Summer");
    assert_eq!(Category::Genre(1, "Новый год".to_string()).title(), "New Year");
    assert_eq!(Category::Genre(1, "Прикол".to_string()).title(), "Fun");
    assert_eq!(Category::Genre(1, "Радиошоу".to_string()).title(), "Radio Shows");
    assert_eq!(Category::Genre(1, "Сон".to_string()).title(), "Sleep");
    assert_eq!(Category::Genre(1, "Спорт".to_string()).title(), "Sport");
    assert_eq!(Category::Genre(1, "Эпохи".to_string()).title(), "Eras");
    assert_eq!(Category::Genre(1, "Электроника".to_string()).title(), "Электроника");
}

#[test]
fn next_then_previous_category_returns_to_the_start() {
    let mut app = fixture();
    let start = app.current_category().clone();
    press(&mut app, KeyCode::Tab);
    press(&mut app, KeyCode::BackTab);
    assert_eq!(*app.current_category(), start);
    // Shift+Tab goes back too.
    app.key(KeyEvent::new(KeyCode::Tab, KeyModifiers { shift: true, control: false }));
    assert_eq!(app.categories.len(), 3);
    assert_eq!(*app.current_category(), Category::Genre(7, "Электроника".to_string()));
}

#[test]
fn navigation_clamps_to_the_list() {
    let mut app = fixture();
    press(&mut app, KeyCode::End);
    assert_eq!(app.selected_station().unwrap().id, 3);
    press(&mut app, KeyCode::PageDown);
    assert_eq!(app.stations, Some(2));
    press(&mut app, KeyCode::Home);
    assert_eq!(app.stations, Some(0));
    press(&mut app, KeyCode::PageUp);
    assert_eq!(app.stations, Some(0));
    press(&mut app, KeyCode::Char('j'));
    assert_eq!(app.stations, Some(1));
    press(&mut app, KeyCode::Char('k'));
    assert_eq!(app.stations, Some(0));
}

#[test]
fn help_scrolls_within_bounds_and_closes() {
    let mut app = fixture();
    press(&mut app, KeyCode::Char('?'));
    assert!(app.help);
    assert_eq!(app.help_scroll, 0);
    for _ in 0..20 {
        press(&mut app, KeyCode::Down);
    }
    assert_eq!(app.help_scroll, 14);
    press(&mut app, KeyCode::Up);
    assert_eq!(app.help_scroll, 13);
    // Keys do not browse while help is shown.
    assert_eq!(app.stations, Some(0));
    assert!(matches!(press(&mut app, KeyCode::Esc), Action::Nothing));
    assert!(!app.help);
    press(&mut app, KeyCode::Char('?'));
    assert!(matches!(press(&mut app, KeyCode::Char('q')), Action::Quit));
}

#[test]
fn control_c_quits_and_other_keys_do_what_they_say() {
    let mut app = fixture();
    let ctrl = KeyModifiers { shift: false, control: true };
    assert!(matches!(app.key(KeyEvent::new(KeyCode::Char('c'), ctrl)), Action::Quit));
    assert!(matches!(press(&mut app, KeyCode::Char('r')), Action::Refresh));
    press(&mut app, KeyCode::Char('i'));
    assert!(!app.show_history);
    press(&mut app, KeyCode::Char('i'));
    assert!(app.show_history);
    assert!(matches!(press(&mut app, KeyCode::Char('+')), Action::Volume(70)));
    assert!(app.dirty);
}

#[test]
fn stop_clears_the_station_and_its_history() {
    let mut app = fixture();
    assert!(matches!(press(&mut app, KeyCode::Char(' ')), Action::Play(_)));
    assert_eq!(app.playback.state, PlayerState::Buffering);
    assert!(app.history_loading);
    app.set_history(1, vec![track(5)]);
    assert_eq!(app.history.len(), 1);
    assert!(matches!(press(&mut app, KeyCode::Char('s')), Action::Stop));
    assert!(app.now.is_none());
    assert!(app.history.is_empty());
    assert_eq!(app.playback.state, PlayerState::Idle);
}

#[test]
fn media_play_and_pause_follow_the_playback_state() {
    let mut app = fixture();
    assert!(matches!(press(&mut app, KeyCode::Media(MediaKeyCode::Pause)), Action::Nothing));
    assert!(matches!(press(&mut app, KeyCode::Media(MediaKeyCode::Play)), Action::Play(_)));
    app.playback.state = PlayerState::Playing;
    assert!(matches!(press(&mut app, KeyCode::Media(MediaKeyCode::Play)), Action::Nothing));
    assert!(matches!(press(&mut app, KeyCode::Media(MediaKeyCode::Pause)), Action::Pause));
}

#[test]
fn playing_a_station_without_stream_reports_an_error() {
    let mut app = App::new(Settings::default());
    app.set_catalog(Catalog { stations: vec![station(1, "Mute", "", vec![])], genres: vec![], tags: vec![] });
    assert!(matches!(press(&mut app, KeyCode::Enter), Action::Nothing));
    assert_eq!(app.error.as_deref(), Some("No stream available"));
    assert!(app.now.is_none());
    // Skipping finds no station with a stream either.
    assert!(matches!(press(&mut app, KeyCode::F(9)), Action::Nothing));
    press(&mut app, KeyCode::Esc);
    assert!(app.error.is_none());
}

#[test]
fn skipping_starts_at_the_selection_when_the_playing_station_is_not_shown() {
    let mut app = fixture();
    assert!(matches!(press(&mut app, KeyCode::Enter), Action::Play(_)));
    assert_eq!(app.now.as_ref().unwrap().id, 1);
    press(&mut app, KeyCode::Tab);
    press(&mut app, KeyCode::Tab);
    assert_eq!(app.visible().len(), 2);
    press(&mut app, KeyCode::Down);
    match press(&mut app, KeyCode::F(9)) {
        Action::Play(url) => assert_eq!(url, "https://example.com/radio"),
        other => panic!("unexpected {other:?}"),
    }
    assert_eq!(app.now.as_ref().unwrap().id, 3);
    press(&mut app, KeyCode::F(9));
    assert_eq!(app.now.as_ref().unwrap().id, 2);
}
