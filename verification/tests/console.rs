use radiome::api::{Station, Track};
use radiome::console::{Console, Request};
use radiome::player::PlayerState;
use radiome::text::truncate;

fn station(id: i64, title: &str, tooltip: &str, stream: &str) -> Station {
    Station {
        id,
        title: title.to_string(),
        prefix: title.to_lowercase(),
        tooltip: tooltip.to_string(),
        stream_320: stream.to_string(),
        stream_64: String::new(),
        stream_128: String::new(),
        stream_hls: String::new(),
        icon_fill: String::new(),
        genres: vec![],
    }
}

fn console() -> Console {
    Console::new(vec![
        station(1, "Record", "Main channel", "https://example.com/record"),
        station(2, "Techno", "Hard beats", "https://example.com/techno"),
        station(3, "Chill-Out", "Relax", ""),
    ])
}

fn track(artist: &str, song: &str) -> Track {
    Track {
        id: 9,
        artist: artist.to_string(),
        song: song.to_string(),
        image100: String::new(),
        image200: String::new(),
        time_formatted: "12:34".to_string(),
    }
}

#[test]
fn truncate_marks_the_cut() {
    assert_eq!(truncate("Record", 28), "Record");
    assert_eq!(truncate("Record", 6), "Record");
    assert_eq!(truncate("Record", 3), "Rec…");
    assert_eq!(truncate("Синтвейв", 4), "Синт…");
    assert_eq!(truncate("", 0), "");
    assert_eq!(truncate("a", 0), "…");
}

#[test]
fn quit_help_list_and_unknown_commands() {
    let mut c = console();
    assert_eq!(c.message, "Loaded stations");
    assert!(matches!(c.handle_command("  quit  "), Request::Quit));
    assert!(matches!(c.handle_command("q"), Request::Quit));
    assert!(matches!(c.handle_command("exit now"), Request::Quit));
    assert!(matches!(c.handle_command("help"), Request::Nothing));
    assert!(c.message.starts_with("commands: help | list"));
    assert!(matches!(c.handle_command("list"), Request::Nothing));
    assert!(matches!(c.handle_command("dance"), Request::Nothing));
    assert_eq!(c.message, "unknown command: dance");
    assert!(matches!(c.handle_command(""), Request::Nothing));
    assert_eq!(c.message, "unknown command: ");
}

#[test]
fn search_filters_by_title_description_and_prefix_ignoring_case() {
    let mut c = console();
    c.handle_command("down");
    assert_eq!(c.selected, 1);
    c.handle_command("search   HARD   beats");
    assert_eq!(c.filter, "HARD beats");
    assert_eq!(c.selected, 0);
    assert_eq!(c.message, "filter set to \"HARD beats\"");
    let shown: Vec<i64> = c.filtered_stations().iter().map(|s| s.id).collect();
    assert_eq!(shown, vec![2]);
    c.handle_command("filter chill");
    let shown: Vec<i64> = c.filtered_stations().iter().map(|s| s.id).collect();
    assert_eq!(shown, vec![3]);
    c.handle_command("search");
    assert_eq!(c.message, "filter cleared");
    assert_eq!(c.filtered_stations().len(), 3);
    c.handle_command("search main");
    let shown: Vec<i64> = c.filtered_stations().iter().map(|s| s.id).collect();
    assert_eq!(shown, vec![1]);
    c.handle_command("clear");
    assert_eq!(c.filter, "");
    assert_eq!(c.message, "filter cleared");
    assert_eq!(c.filtered_stations().len(), 3);
}

#[test]
fn up_and_down_wrap_around() {
    let mut c = console();
    c.handle_command("up");
    assert_eq!(c.selected, 2);
    c.handle_command("j");
    assert_eq!(c.selected, 0);
    c.handle_command("k");
    c.handle_command("k");
    assert_eq!(c.selected, 1);
    c.handle_command("search nothing-matches");
    c.handle_command("down");
    assert_eq!(c.selected, 0);
}

#[test]
fn play_picks_by_selection_position_or_title() {
    let mut c = console();
    match c.handle_command("play") {
        Request::Play(s, url) => {
            assert_eq!(s.id, 1);
            assert_eq!(url, "https://example.com/record");
        }
        other => panic!("unexpected {other:?}"),
    }
    match c.handle_command("p 2") {
        Request::Play(s, _) => assert_eq!(s.id, 2),
        other => panic!("unexpected {other:?}"),
    }
    match c.handle_command("play +0") {
        Request::Play(s, _) => assert_eq!(s.id, 1),
        other => panic!("unexpected {other:?}"),
    }
    match c.handle_command("play TECH") {
        Request::Play(s, _) => assert_eq!(s.id, 2),
        other => panic!("unexpected {other:?}"),
    }
    assert!(matches!(c.handle_command("play 9"), Request::Nothing));
    assert_eq!(c.message, "error: no station matched the request");
    assert!(matches!(c.handle_command("play chill"), Request::Nothing));
    assert_eq!(c.message, "error: station has no stream URL");
    assert!(matches!(c.handle_command("play -1"), Request::Nothing));
    assert_eq!(c.message, "error: no station matched the request");
}

#[test]
fn follow_up_messages() {
    let mut c = console();
    let record = station(1, "Record", "", "u");
    c.playing(&record, Ok(Some(track("Artist", "Song"))));
    assert_eq!(c.message, "playing Record - Artist / Song");
    c.playing(&record, Ok(Some(track("", ""))));
    assert_eq!(c.message, "playing Record");
    c.playing(&record, Err("offline".to_string()));
    assert_eq!(c.message, "playing Record");
    c.now_playing_loaded(&record, Ok(Some(track("Artist", ""))));
    assert_eq!(c.message, "Record: Artist -  (12:34)");
    c.now_playing_loaded(&record, Ok(None));
    assert_eq!(c.message, "Record: no recent track data");
    c.now_playing_loaded(&record, Err("timeout".to_string()));
    assert_eq!(c.message, "now playing unavailable: timeout");
    c.fail("curl failed");
    assert_eq!(c.message, "error: curl failed");
    assert!(matches!(c.handle_command("stop"), Request::Stop));
    assert_eq!(c.message, "stopped playback");
    assert!(matches!(c.handle_command("refresh"), Request::Refresh));
    c.selected = 2;
    c.stations_loaded(vec![station(5, "New", "", "u")]);
    assert_eq!(c.selected, 0);
    assert_eq!(c.message, "reloaded 1 stations");
    match c.handle_command("now") {
        Request::NowPlaying(s) => assert_eq!(s.id, 5),
        other => panic!("unexpected {other:?}"),
    }
    c.handle_command("search zzz");
    assert!(matches!(c.handle_command("now"), Request::Nothing));
    assert_eq!(c.message, "now playing unavailable: no station selected");
}

#[test]
fn screen_lists_at_most_twenty_stations() {
    let stations: Vec<Station> = (0..25)
        .map(|i| station(i, &format!("Station {i:03}"), "", if i == 1 { "" } else { "https://e.com/s" }))
        .collect();
    let mut c = Console::new(stations);
    c.player_state = PlayerState::Error;
    c.player_error = Some("broken".to_string());
    c.player_url = Some("https://e.com/s".to_string());
    let lines = c.screen_lines();
    assert_eq!(lines[0], "radiome - minimal Radio Record player");
    assert_eq!(lines[1], "stations: 25 | filter: <none>");
    assert_eq!(lines[2], "player: error (broken)");
    assert_eq!(lines[3], "url: https://e.com/s");
    assert_eq!(lines[4], "message: Loaded stations");
    assert_eq!(lines[5], "");
    assert_eq!(lines[6], "visible stations: 25");
    assert_eq!(
        lines[7],
        format!("> {:>3}. {:<28} {:<24} {}", 1, "Station 000", "", "https://e.com/s")
    );
    assert_eq!(lines[8], format!("  {:>3}. {:<28} {:<24} {}", 2, "Station 001", "", "<no stream>"));
    assert_eq!(lines[26], format!("  {:>3}. {:<28} {:<24} {}", 20, "Station 019", "", "https://e.com/s"));
    assert_eq!(lines[27], "... and 5 more");
    assert_eq!(lines[28], "");
    assert!(lines[29].starts_with("commands: "));
    assert_eq!(lines.len(), 30);
    c.player_state = PlayerState::Idle;
    c.player_error = None;
    c.player_url = None;
    c.handle_command("search 024");
    let lines = c.screen_lines();
    assert_eq!(lines[1], "stations: 25 | filter: 024");
    assert_eq!(lines[2], "player: idle");
    assert_eq!(lines.len(), 9);
}
