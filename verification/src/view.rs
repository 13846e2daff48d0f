//! What the screen shows, decided from the application state; drawing it is
//! left to the terminal front end.
use vstd::prelude::*;

use crate::api::{Station, Track};
use crate::text::{self, natural, pad_right};
use crate::app::{App, Category, CategoryView};
use crate::player::PlayerState;

verus! {

broadcast use vstd::std_specs::btree::group_btree_axioms, vstd::laws_cmp::group_laws_cmp;

/// The smallest screen that the layout fits: 44 × 12.
pub fn fits_screen(width: u16, height: u16) -> (r: bool)
    ensures
        r == (width >= 44 && height >= 12),
{
    width >= 44 && height >= 12
}

/// The width of the category column: wider on wide screens.
pub fn category_width(width: u16) -> (r: u16)
    ensures
        r == (if width >= 90 { 25u16 } else { 18u16 }),
{
    if width >= 90 {
        25
    } else {
        18
    }
}

/// Whether the history panel is drawn below the stations: when asked for and
/// when there is room for it.
pub fn shows_history_panel(show_history: bool, body_height: u16) -> (r: bool)
    ensures
        r == (show_history && body_height >= 12),
{
    show_history && body_height >= 12
}

/// The height of the history panel: a third of the body, from 5 to 8 rows.
pub fn history_panel_height(body_height: u16) -> (r: u16)
    ensures
        r == (if body_height / 3 < 5 {
            5
        } else if body_height / 3 > 8 {
            8
        } else {
            body_height / 3
        }),
{
    let third = body_height / 3;
    if third < 5 {
        5
    } else if third > 8 {
        8
    } else {
        third
    }
}

/// What the station list says when the current category shows no station.
pub fn empty_stations_text(app: &App) -> (r: &'static str)
    requires
        app.wf(),
    ensures
        r@ == (if app.loading {
            "Loading…"@
        } else if app.error is Some && app.catalog is None {
            "Stations unavailable · r retry"@
        } else if app.current() == CategoryView::Favorites {
            "No favorites · f to add"@
        } else {
            "No stations"@
        }),
{
    if app.loading {
        "Loading…"
    } else if app.error.is_some() && app.catalog.is_none() {
        "Stations unavailable · r retry"
    } else {
        match app.current_category() {
            Category::Favorites => "No favorites · f to add",
            _ => "No stations",
        }
    }
}

/// Whether a station is the one under way (not stopped, not failed).
pub open spec fn is_current_station(app: App, station: Station) -> bool {
    &&& app.now matches Some(n) && n.id == station.id
    &&& app.playback.state != PlayerState::Idle
    &&& app.playback.state != PlayerState::Error
}

pub fn is_current(app: &App, station: &Station) -> (r: bool)
    ensures
        r == is_current_station(*app, *station),
{
    let same = match &app.now {
        Some(n) => n.id == station.id,
        None => false,
    };
    same && app.playback.state != PlayerState::Idle && app.playback.state != PlayerState::Error
}

/// The mark before a station: pause, loading or play for the current one.
pub fn station_marker(app: &App, station: &Station) -> (r: &'static str)
    ensures
        r@ == (if is_current_station(*app, *station) {
            if app.playback.state == PlayerState::Paused {
                "Ⅱ "@
            } else if app.playback.state == PlayerState::Buffering {
                "· "@
            } else {
                "▶ "@
            }
        } else {
            "  "@
        }),
{
    if is_current(app, station) {
        match app.playback.state {
            PlayerState::Paused => "Ⅱ ",
            PlayerState::Buffering => "· ",
            _ => "▶ ",
        }
    } else {
        "  "
    }
}

/// The mark after a favourite station, outside the Favorites category only.
pub fn favorite_marker(app: &App, station: &Station) -> (r: &'static str)
    requires
        app.wf(),
    ensures
        r@ == (if app.settings.favorites@.contains(station.id) && app.current()
            != CategoryView::Favorites {
            "  +"@
        } else {
            ""@
        }),
{
    let favorite = app.settings.favorites.contains(&station.id);
    let in_favorites = match app.current_category() {
        Category::Favorites => true,
        _ => false,
    };
    if favorite && !in_favorites {
        "  +"
    } else {
        ""
    }
}

/// What the history panel says instead of tracks, when it holds at most one
/// (the first track is the one playing).
pub fn history_placeholder(app: &App) -> (r: Option<&str>)
    ensures
        app.history@.len() > 1 ==> r is None,
        app.history@.len() <= 1 ==> (r matches Some(t) && t@ == (match app.history_error {
            Some(e) => e@,
            None => if app.history_loading {
                "Loading…"@
            } else if app.now is None {
                ""@
            } else {
                "No track history"@
            },
        })),
{
    if app.history.len() > 1 {
        return None;
    }
    Some(
        match &app.history_error {
            Some(error) => error.as_str(),
            None => if app.history_loading {
                "Loading…"
            } else if app.now.is_none() {
                ""
            } else {
                "No track history"
            },
        },
    )
}

/// The symbol of a playback state.
pub fn playback_symbol(state: PlayerState) -> (r: &'static str)
    ensures
        r@ == match state {
            PlayerState::Idle => "○"@,
            PlayerState::Buffering => "·"@,
            PlayerState::Playing => "▶"@,
            PlayerState::Paused => "Ⅱ"@,
            PlayerState::Error => "!"@,
        },
{
    match state {
        PlayerState::Idle => "○",
        PlayerState::Buffering => "·",
        PlayerState::Playing => "▶",
        PlayerState::Paused => "Ⅱ",
        PlayerState::Error => "!",
    }
}

/// The title of the station under way, or "Stopped".
pub fn now_playing_name(app: &App) -> (r: &str)
    ensures
        r@ == match app.now {
            Some(n) => n.title@,
            None => "Stopped"@,
        },
{
    match &app.now {
        Some(station) => station.title.as_str(),
        None => "Stopped",
    }
}

/// The line under the player: its error, else the current track, else a note
/// that the track is loading.
pub fn track_text(app: &App) -> (r: String)
    ensures
        r@ == (match app.playback.error {
            Some(e) => e@,
            None => if app.history@.len() > 0 {
                app.history@[0].artist@ + " — "@ + app.history@[0].song@
            } else if app.history_loading {
                "Loading track…"@
            } else {
                Seq::empty()
            },
        }),
{
    match &app.playback.error {
        Some(error) => error.clone(),
        None => if app.history.len() > 0 {
            let track = &app.history[0];
            let line = track.artist.clone();
            let line = line.concat(" — ");
            line.concat(track.song.as_str())
        } else if app.history_loading {
            "Loading track…".to_owned()
        } else {
            String::new()
        },
    }
}

/// The status line: the application's error, if any.
pub fn status_text(app: &App) -> (r: &str)
    ensures
        r@ == match app.error {
            Some(e) => e@,
            None => ""@,
        },
{
    match &app.error {
        Some(e) => e.as_str(),
        None => "",
    }
}

/// The help window in an area: at most 52 columns (4 less than the area) and
/// 17 rows, centred. Returns its x, y, width and height.
pub fn help_popup(x: u16, y: u16, width: u16, height: u16) -> (r: (u16, u16, u16, u16))
    requires
        x + width <= u16::MAX,
        y + height <= u16::MAX,
    ensures
        r.2 == (if width < 4 {
            0
        } else if width - 4 < 52 {
            width - 4
        } else {
            52
        }),
        r.3 == (if height < 17 { height } else { 17 }),
        r.0 == x + (width - r.2) / 2,
        r.1 == y + (height - r.3) / 2,
{
    let w: u16 = if width < 4 {
        0
    } else if width - 4 < 52 {
        width - 4
    } else {
        52
    };
    let h: u16 = if height < 17 { height } else { 17 };
    (x + (width - w) / 2, y + (height - h) / 2, w, h)
}


/// The scroll offset of the help text in a window `height` rows high.
pub fn help_offset(scroll: u16, height: u16) -> (r: u16)
    ensures
        r == (if height < 4 {
            if scroll < 13 { scroll } else { 13 }
        } else if height - 4 >= 13 {
            0
        } else if scroll < 13 - (height - 4) {
            scroll
        } else {
            (13 - (height - 4)) as u16
        }),
{
    let inner: u16 = if height < 4 { 0 } else { height - 4 };
    let limit: u16 = if inner >= 13 { 0 } else { 13 - inner };
    if scroll < limit {
        scroll
    } else {
        limit
    }
}

/// The hint at the bottom of the help window: the scroll keys when it is cut short.
pub fn help_hint(height: u16) -> (r: &'static str)
    ensures
        r@ == (if height < 17 { " ↑↓  ? / Esc "@ } else { " ? / Esc "@ }),
{
    if height < 17 {
        " ↑↓  ? / Esc "
    } else {
        " ? / Esc "
    }
}

/// The keys and what they do, as the help window lists them.
pub open spec fn help_pairs() -> Seq<(Seq<char>, Seq<char>)> {
    seq![
        ("↑ ↓ / j k"@, "select"@),
        ("Tab / Shift Tab"@, "next / previous category"@),
        ("Enter"@, "play station"@),
        ("Space / F8"@, "play / pause"@),
        ("F7 / F9"@, "previous / next station"@),
        ("− / ="@, "player volume"@),
        ("f"@, "toggle favorite"@),
        ("Esc"@, "close"@),
        ("i"@, "toggle history"@),
        ("PgUp PgDn Home End"@, "scroll"@),
        ("r"@, "refresh"@),
        ("s"@, "stop"@),
        ("q / Ctrl C"@, "quit"@),
    ]
}

/// The lines of the help window: the keys in a column 19 characters wide,
/// then what they do.
pub fn help_entries() -> (r: Vec<(String, &'static str)>)
    ensures
        r@.len() == help_pairs().len(),
        forall|i: int|
            0 <= i < r@.len() ==> r@[i].0@ == text::padded_right(#[trigger] help_pairs()[i].0, 19)
                && r@[i].1@ == help_pairs()[i].1,
{
    let pairs: [(&'static str, &'static str); 13] = [
        ("↑ ↓ / j k", "select"),
        ("Tab / Shift Tab", "next / previous category"),
        ("Enter", "play station"),
        ("Space / F8", "play / pause"),
        ("F7 / F9", "previous / next station"),
        ("− / =", "player volume"),
        ("f", "toggle favorite"),
        ("Esc", "close"),
        ("i", "toggle history"),
        ("PgUp PgDn Home End", "scroll"),
        ("r", "refresh"),
        ("s", "stop"),
        ("q / Ctrl C", "quit"),
    ];
    let ghost want = help_pairs();
    assert(pairs@.len() == 13);
    assert(forall|i: int| 0 <= i < 13 ==> #[trigger] pairs@[i].0@ == want[i].0 && pairs@[i].1@ == want[i].1);
    let mut r: Vec<(String, &'static str)> = Vec::new();
    let mut i: usize = 0;
    while i < 13
        invariant
            i <= 13,
            want == help_pairs(),
            pairs@.len() == 13,
            forall|k: int| 0 <= k < 13 ==> #[trigger] pairs@[k].0@ == want[k].0 && pairs@[k].1@ == want[k].1,
            r@.len() == i,
            forall|k: int|
                0 <= k < i ==> r@[k].0@ == text::padded_right(#[trigger] want[k].0, 19) && r@[k].1@
                    == want[k].1,
        decreases 13 - i,
    {
        let (keys, label) = pairs[i];
        r.push((pad_right(keys, 19), label));
        i += 1;
    }
    r
}

/// One line of the history list: the time (with two spaces), the artist, and
/// the song after a dash.
pub fn history_entry(track: &Track) -> (r: (String, String, String))
    ensures
        r.0@ == track.time_formatted@ + "  "@,
        r.1@ == track.artist@,
        r.2@ == " — "@ + track.song@,
{
    (
        track.time_formatted.clone().concat("  "),
        track.artist.clone(),
        " — ".to_owned().concat(track.song.as_str()),
    )
}

/// Whether the history panel marks its tracks as out of date: when tracks are
/// listed and the last refresh failed.
pub fn history_outdated(app: &App) -> (r: bool)
    ensures
        r == (app.history@.len() > 1 && app.history_error is Some),
{
    app.history.len() > 1 && app.history_error.is_some()
}

/// The volume as the player line shows it, in percent.
pub fn volume_label(volume: u8) -> (r: String)
    ensures
        r@ == text::nat_text(volume as nat) + "%"@,
{
    natural(volume as u64).concat("%")
}

/// The player line: the playback symbol, two spaces, and the station under way.
pub fn now_line(app: &App) -> (r: String)
    ensures
        r@ == (match app.playback.state {
            PlayerState::Idle => "○"@,
            PlayerState::Buffering => "·"@,
            PlayerState::Playing => "▶"@,
            PlayerState::Paused => "Ⅱ"@,
            PlayerState::Error => "!"@,
        }) + "  "@ + (match app.now {
            Some(n) => n.title@,
            None => "Stopped"@,
        }),
{
    playback_symbol(app.playback.state).to_owned().concat("  ").concat(now_playing_name(app))
}

} // verus!
