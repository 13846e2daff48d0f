//! Properties of the library as a whole, proved from the contracts of its parts.
use vstd::prelude::*;

use crate::api::{self, Station, StationView, TrackView};
use crate::json::{self, Json};
use crate::app::{self, Action, App, KeyCode, KeyEvent, KeyEventKind};
use crate::console::{self, Console};
use crate::engine::{self, Worker, WorkerEvent};
use crate::number;
use crate::settings;
use crate::text;

verus! {

/// Tab then Shift+Tab comes back to the category it started from.
pub proof fn next_then_previous_category_returns(a0: App, a1: App, a2: App)
    requires
        a0.wf(),
        app::changes_category(a0, 1isize, a1),
        app::changes_category(a1, -1isize, a2),
    ensures
        a2.category_index() == a0.category_index(),
        a2.categories == a0.categories,
{
    let n = a0.categories@.len() as int;
    assert(a0.categories.len() == n);
    let i = a0.category_index();
    let j = (i + 1) % n;
    assert(0 <= j < n) by (nonlinear_arith)
        requires
            n > 0,
            j == (i + 1) % n,
    ;
    assert(0 <= (j - 1) % n < n) by (nonlinear_arith)
        requires
            n > 0,
    ;
    assert(a1.category_index() == j);
    assert(a2.category_index() == (j - 1) % n);
    if i + 1 < n {
        assert(j == i + 1) by (nonlinear_arith)
            requires
                0 <= i + 1 < n,
                j == (i + 1) % n,
        ;
        assert((j - 1) % n == i) by (nonlinear_arith)
            requires
                0 <= i < n,
                j - 1 == i,
        ;
    } else {
        assert(i + 1 == n);
        assert(j == 0) by (nonlinear_arith)
            requires
                i + 1 == n,
                n > 0,
                j == (i + 1) % n,
        ;
        assert((j - 1) % n == n - 1) by (nonlinear_arith)
            requires
                j == 0,
                n > 0,
        ;
    }
}

/// Categories wrap around: Tab on the last category selects the first.
pub proof fn categories_wrap_around(a0: App, a1: App)
    requires
        a0.wf(),
        a0.category_index() == a0.categories@.len() - 1,
        app::changes_category(a0, 1isize, a1),
    ensures
        a1.category_index() == 0,
{
    let n = a0.categories@.len() as int;
    assert(a0.categories.len() == n);
    assert((n - 1 + 1) % n == 0) by (nonlinear_arith)
        requires
            n > 0,
    ;
}

/// Selection, category and history keys never change what plays: browsing
/// leaves the playing station, its history and the playback as they were.
pub proof fn browsing_never_changes_playback(a0: App, key: KeyEvent, a1: App, r: Action)
    requires
        a0.wf(),
        !a0.help,
        key.code == KeyCode::Up || key.code == KeyCode::Down || key.code == KeyCode::Char('j')
            || key.code == KeyCode::Char('k') || key.code == KeyCode::PageUp || key.code
            == KeyCode::PageDown || key.code == KeyCode::Home || key.code == KeyCode::End
            || key.code == KeyCode::Tab || key.code == KeyCode::BackTab || key.code
            == KeyCode::Left || key.code == KeyCode::Right || key.code == KeyCode::Char('i'),
        app::key_result(a0, key, a1, r),
    ensures
        a1.now == a0.now,
        a1.history == a0.history,
        a1.history_loading == a0.history_loading,
        a1.playback == a0.playback,
        r is Nothing,
{
}

/// The volume never leaves 0..=100, and a volume action carries the new volume.
pub proof fn volume_stays_within_bounds(a0: App, key: KeyEvent, a1: App, r: Action)
    requires
        a0.wf(),
        a0.settings.volume <= 100,
        app::key_result(a0, key, a1, r),
    ensures
        a1.settings.volume <= 100,
        r matches Action::Volume(v) ==> v == a1.settings.volume,
{
}

/// Skipping plays a station of the current category that has a stream, and
/// asks for exactly that stream.
pub proof fn skipping_plays_a_shown_station_with_a_stream(a0: App, direction: isize, a1: App, r: Action)
    requires
        a0.wf(),
        app::skips(a0, direction, a1, r),
        r is Play,
    ensures
        a1.now matches Some(n) && (exists|i: int| 0 <= i < a0.shown().len() && a0.shown()[i]@ == n@)
            && api::stream_of(n@) == Some(r->Play_0@),
{
    let vs = a0.shown();
    app::shown_fits(a0);
    let start = app::skip_start(a0, direction);
    app::lemma_first_playable(vs, start, direction as int, 0);
    let i = app::first_playable(vs, start, direction as int, 0)->0;
    let mid = App { stations: Some(i as usize), ..a0 };
    assert(mid.shown() == vs);
    assert(mid.selected() == Some(vs[i]));
}



/// Toggling a favourite twice gives back the favourites as they were.
pub proof fn favorite_toggle_is_undone_by_a_second_toggle(favorites: Set<i64>, id: i64)
    ensures
        settings::toggled(settings::toggled(favorites, id), id) == favorites,
{
    assert(settings::toggled(settings::toggled(favorites, id), id) =~= favorites);
}

/// A history limit keeps the most recent tracks only: at most `limit` of
/// them, in their order.
pub proof fn history_limit_keeps_the_first_tracks(t: Seq<TrackView>, limit: nat)
    ensures
        limit > 0 ==> api::limit_tracks(t, limit).len() <= limit,
        api::limit_tracks(t, limit).len() <= t.len(),
        forall|i: int|
            0 <= i < api::limit_tracks(t, limit).len() ==> #[trigger] api::limit_tracks(t, limit)[i]
                == t[i],
{
}

/// Moving the selection keeps it on a station when there is one, and clears
/// it when there is none.
pub proof fn moved_selection_stays_in_the_list(selection: Option<usize>, count: usize, delta: isize)
    ensures
        count > 0 ==> (app::moved(selection, count, delta) matches Some(i) && i < count),
        count == 0 ==> app::moved(selection, count, delta) is None,
{
}

/// A literal of decimal digits denotes the integer that the digits spell,
/// saturated to the range of an `i64` (below the point where an `f64` would be
/// infinite).
pub proof fn digit_literals_denote_their_value(t: Seq<char>)
    requires
        t.len() > 0,
        number::all_digits(t),
        number::digits_value(t) < number::pow10(308),
    ensures
        number::literal_i64(t) == Some(number::saturated(number::digits_value(t) as int)),
        number::digits_value(t) <= i64::MAX ==> number::literal_i64(t) == Some(
            number::digits_value(t) as i64,
        ),
{
    lemma_digits_to_end(t, 0);
    assert(number::sign_end(t) == 0);
    assert(number::int_end(t) == t.len());
    assert(!number::has_dot(t));
    assert(number::frac_end(t) == t.len());
    assert(!number::has_exp(t));
    assert(crate::json::number_end(t, 0) == t.len());
    assert(number::is_decimal_literal(t));
    assert(number::significand(t) =~= t);
    assert(number::fraction_len(t) == 0);
    assert(number::exponent(t) == 0);
    let v = number::digits_value(t);
    assert(number::pow10(0) == 1);
    assert(v * 1 == v);
    vstd::arithmetic::div_mod::lemma_fundamental_div_mod_converse(v as int, 1, v as int, 0);
    number::lemma_f64_limit();
}

proof fn lemma_digits_to_end(t: Seq<char>, p: int)
    requires
        0 <= p <= t.len(),
        number::all_digits(t),
    ensures
        crate::json::digits_end(t, p) == t.len(),
    decreases t.len() - p,
{
    if p < t.len() {
        lemma_digits_to_end(t, p + 1);
    }
}

/// Function transport keys also work while the help is open: they do what
/// they do with the help closed, and the help stays open.
pub proof fn transport_keys_work_while_help_is_open(a0: App, key: KeyEvent, a1: App, r: Action)
    requires
        a0.wf(),
        a0.help,
        app::transport(key.code) is Some,
        key.kind == KeyEventKind::Press,
        app::key_result(a0, key, a1, r),
    ensures
        a1.help,
        app::key_result(App { help: false, ..a0 }, key, App { help: false, ..a1 }, r),
{
    let b0 = App { help: false, ..a0 };
    assert(b0.shown() == a0.shown());
    assert(b0.selected() == a0.selected());
    assert(app::skip_start(b0, 1isize) == app::skip_start(a0, 1isize));
    assert(app::skip_start(b0, -1isize) == app::skip_start(a0, -1isize));
    let s = a0.selected();
    if app::transport(key.code)->0 != 0 {
        let d = app::transport(key.code)->0 as isize;
        let vs = a0.shown();
        if vs.len() > 0 {
            match app::first_playable(vs, app::skip_start(a0, d), d as int, 0) {
                Some(i) => {
                    let c0 = App { stations: Some(i as usize), ..a0 };
                    let c1 = App { stations: Some(i as usize), ..b0 };
                    assert(c1 == App { help: false, ..c0 });
                    assert(c1.shown() == c0.shown());
                    assert(c1.selected() == c0.selected());
                },
                None => {},
            }
        }
    }
}

/// The left and right arrows have no action, and neither has `/`: there is no search.
pub proof fn left_right_and_slash_do_nothing(a0: App, key: KeyEvent, a1: App, r: Action)
    requires
        a0.wf(),
        key.code == KeyCode::Left || key.code == KeyCode::Right || key.code == KeyCode::Char('/'),
        app::key_result(a0, key, a1, r),
    ensures
        a1 == a0,
        r is Nothing,
{
}

/// In the console, `down` then `up` comes back to the selected station.
pub proof fn console_down_then_up_returns(selected: usize, len: nat)
    requires
        selected < len,
        len <= usize::MAX,
    ensures
        console::up_index(console::down_index(selected, len), len) == selected,
{
    if selected + 1 < len {
        assert((selected + 1) % (len as int) == selected + 1) by (nonlinear_arith)
            requires
                selected + 1 < len,
                selected >= 0,
        ;
    } else {
        assert((selected + 1) % (len as int) == 0) by (nonlinear_arith)
            requires
                selected + 1 == len,
        ;
    }
}

/// In the console, an empty filter shows every station, in order.
pub proof fn empty_filter_shows_every_station(c: Console)
    requires
        c.filter@.len() == 0,
    ensures
        c.shown() == c.stations@,
{
}

/// Truncation keeps the start of the text and adds at most one character.
pub proof fn truncation_keeps_the_start(value: Seq<char>, max_chars: nat)
    ensures
        text::truncated(value, max_chars).len() <= max_chars + 1,
        text::truncated(value, max_chars).len() <= value.len() + 1,
        forall|i: int|
            0 <= i < max_chars && i < value.len() ==> #[trigger] text::truncated(value, max_chars)[i]
                == value[i],
        value.len() <= max_chars ==> text::truncated(value, max_chars) == value,
{
}


proof fn lemma_position_of(vs: Seq<crate::api::Station>, id: i64)
    ensures
        -1 <= app::position_of(vs, id) < vs.len(),
        app::position_of(vs, id) >= 0 ==> vs[app::position_of(vs, id)].id == id,
    decreases vs.len(),
{
    if vs.len() > 0 {
        lemma_position_of(vs.drop_last(), id);
    }
}

/// Previous and next follow the playing station when the current category
/// shows it: they play the station before or after it (round the list) when
/// that one has a stream.
pub proof fn previous_and_next_follow_the_playing_station(a0: App, direction: isize, a1: App, r: Action)
    requires
        a0.wf(),
        direction == 1 || direction == -1,
        a0.now matches Some(n) && app::position_of(a0.shown(), n.id) >= 0,
        api::stream_of(
            a0.shown()[(app::position_of(a0.shown(), a0.now->Some_0.id) + direction) % (a0.shown().len() as int)]@,
        ) is Some,
        app::skips(a0, direction, a1, r),
    ensures
        a1.now matches Some(m) && m@ == a0.shown()[(app::position_of(a0.shown(), a0.now->Some_0.id)
            + direction) % (a0.shown().len() as int)]@,
        r is Play,
{
    let vs = a0.shown();
    app::shown_fits(a0);
    let p = app::position_of(vs, a0.now->Some_0.id);
    lemma_position_of(vs, a0.now->Some_0.id);
    let n = vs.len() as int;
    let s = (p + direction) % n;
    assert(0 <= s < n) by (nonlinear_arith)
        requires
            n > 0,
            s == (p + direction) % n,
    ;
    assert(app::skip_start(a0, direction) == s);
    assert((s + direction * 0) % n == s) by (nonlinear_arith)
        requires
            0 <= s < n,
    ;
    assert(app::first_playable(vs, s, direction as int, 0) == Some(s));
    let b = App { stations: Some(s as usize), ..a0 };
    assert(b.shown() == vs);
    assert(b.selected() == Some(vs[s]));
}

/// When the current category does not show the playing station, previous and
/// next start at the selected station: they play it when it has a stream.
pub proof fn skipping_starts_at_the_selection(a0: App, direction: isize, a1: App, r: Action, i: usize)
    requires
        a0.wf(),
        a0.now matches Some(n) ==> app::position_of(a0.shown(), n.id) < 0,
        a0.stations == Some(i),
        i < a0.shown().len(),
        api::stream_of(a0.shown()[i as int]@) is Some,
        app::skips(a0, direction, a1, r),
    ensures
        a1.now matches Some(m) && m@ == a0.shown()[i as int]@,
        r is Play,
{
    let vs = a0.shown();
    app::shown_fits(a0);
    let n = vs.len() as int;
    assert(app::skip_start(a0, direction) == i);
    assert((i + direction * 0) % n == i) by (nonlinear_arith)
        requires
            0 <= i < n,
    ;
    assert(app::first_playable(vs, i as int, direction as int, 0) == Some(i as int));
    let b = App { stations: Some(i), ..a0 };
    assert(b.shown() == vs);
    assert(b.selected() == Some(vs[i as int]));
}

proof fn lemma_generations(ws: Seq<Worker>, events: Seq<WorkerEvent>, sent: Seq<Option<u64>>, k: int)
    requires
        ws.len() == events.len() + 1,
        sent.len() == events.len(),
        forall|i: int| 0 <= i < events.len() ==> #[trigger] engine::worker_step(ws[i], events[i], ws[i + 1], sent[i]),
        0 <= k <= events.len(),
    ensures
        ws[k].generation == engine::last_generation(events.take(k), ws[0].generation),
    decreases k,
{
    if k > 0 {
        lemma_generations(ws, events, sent, k - 1);
        assert(events.take(k).drop_last() =~= events.take(k - 1));
        assert(events.take(k).last() == events[k - 1]);
        let i = k - 1;
        assert(engine::worker_step(ws[i], events[i], ws[i + 1], sent[i]));
        assert(i + 1 == k);
    } else {
        assert(events.take(0) =~= Seq::<WorkerEvent>::empty());
    }
}

/// Over any run of the audio worker, every report it sends carries the
/// generation of the last play or stop request before it (the starting
/// generation before the first), and the worker ends at that generation: a
/// report can never be mistaken for one about a later request.
pub proof fn reports_carry_the_last_generation(ws: Seq<Worker>, events: Seq<WorkerEvent>, sent: Seq<Option<u64>>)
    requires
        ws.len() == events.len() + 1,
        sent.len() == events.len(),
        forall|i: int| 0 <= i < events.len() ==> #[trigger] engine::worker_step(ws[i], events[i], ws[i + 1], sent[i]),
    ensures
        forall|k: int|
            0 <= k < events.len() ==> (#[trigger] sent[k] matches Some(g) ==> g
                == engine::last_generation(events.take(k + 1), ws[0].generation)),
        ws[events.len() as int].generation == engine::last_generation(events, ws[0].generation),
{
    assert forall|k: int| 0 <= k < events.len() implies (#[trigger] sent[k] matches Some(g) ==> g
        == engine::last_generation(events.take(k + 1), ws[0].generation)) by {
        lemma_generations(ws, events, sent, k);
        assert(events.take(k + 1).drop_last() =~= events.take(k));
        assert(events.take(k + 1).last() == events[k]);
        assert(engine::worker_step(ws[k], events[k], ws[k + 1], sent[k]));
    }
    lemma_generations(ws, events, sent, events.len() as int);
    assert(events.take(events.len() as int) =~= events);
}

// ---------------------------------------------------------------------------
// What the operations are for, stated in terms of their inputs.
// ---------------------------------------------------------------------------

/// Stream priority: a station plays its 320 kbit/s stream when it has one,
/// else its HLS stream, else its 128 kbit/s stream, else its 64 kbit/s
/// stream, and nothing when all four are empty.
pub proof fn stream_priority(s: StationView)
    ensures
        s.stream_320.len() > 0 ==> api::stream_of(s) == Some(s.stream_320),
        s.stream_320.len() == 0 && s.stream_hls.len() > 0 ==> api::stream_of(s) == Some(s.stream_hls),
        s.stream_320.len() == 0 && s.stream_hls.len() == 0 && s.stream_128.len() > 0
            ==> api::stream_of(s) == Some(s.stream_128),
        s.stream_320.len() == 0 && s.stream_hls.len() == 0 && s.stream_128.len() == 0
            && s.stream_64.len() > 0 ==> api::stream_of(s) == Some(s.stream_64),
        s.stream_320.len() == 0 && s.stream_hls.len() == 0 && s.stream_128.len() == 0
            && s.stream_64.len() == 0 ==> api::stream_of(s) is None,
{
}

/// Whether a station's lower-cased title, description or prefix holds `needle`.
pub open spec fn found_by(s: Station, needle: Seq<char>) -> bool {
    ||| text::has_infix(text::lowercase(s.title@), needle)
    ||| text::has_infix(text::lowercase(s.tooltip@), needle)
    ||| text::has_infix(text::lowercase(s.prefix@), needle)
}

proof fn lemma_matching_is_filter(stations: Seq<Station>, needle: Seq<char>)
    ensures
        console::matching(stations, needle) == stations.filter(|s: Station| found_by(s, needle)),
    decreases stations.len(),
{
    reveal(Seq::filter);
    if stations.len() > 0 {
        lemma_matching_is_filter(stations.drop_last(), needle);
    }
}

/// The console's search: with a filter, the stations shown are, in order,
/// exactly those whose lower-cased title, description or prefix holds the
/// lower-cased filter; without one, all stations.
pub proof fn search_shows_the_stations_the_filter_finds(c: Console)
    ensures
        c.filter@.len() > 0 ==> c.shown() == c.stations@.filter(
            |s: Station| found_by(s, text::lowercase(c.filter@)),
        ),
        c.filter@.len() > 0 ==> forall|k: int|
            0 <= k < c.stations@.len() && text::has_infix(
                text::lowercase(c.stations@[k].prefix@),
                text::lowercase(c.filter@),
            ) ==> c.shown().contains(#[trigger] c.stations@[k]),
        c.filter@.len() == 0 ==> c.shown() == c.stations@,
{
    let needle = text::lowercase(c.filter@);
    lemma_matching_is_filter(c.stations@, needle);
    if c.filter@.len() > 0 {
        let p = |s: Station| found_by(s, needle);
        assert forall|k: int|
            0 <= k < c.stations@.len() && text::has_infix(
                text::lowercase(c.stations@[k].prefix@),
                needle,
            ) implies c.shown().contains(#[trigger] c.stations@[k]) by {
            c.stations@.filter_lemma(p);
            assert(p(c.stations@[k]));
            assert(c.stations@.contains(c.stations@[k]));
        }
    }
}

/// JSON whitespace between tokens is exactly space, line feed, carriage return
/// and tab: those four are skipped, and any other character stops the skip.
pub proof fn json_whitespace_is_the_four_characters(s: Seq<char>, p: int)
    requires
        0 <= p < s.len(),
    ensures
        (s[p] == ' ' || s[p] == '\n' || s[p] == '\r' || s[p] == '\t') ==> json::skip_ws(s, p)
            == json::skip_ws(s, p + 1),
        !(s[p] == ' ' || s[p] == '\n' || s[p] == '\r' || s[p] == '\t') ==> json::skip_ws(s, p) == p,
{
}

/// A whitespace character before a value changes nothing but the count of
/// characters read: the value after a space, line feed, carriage return or
/// tab is the value after it, one character further.
pub proof fn whitespace_before_a_value_is_skipped(s: Seq<char>, p: int)
    requires
        0 <= p < s.len(),
        s[p] == ' ' || s[p] == '\n' || s[p] == '\r' || s[p] == '\t',
    ensures
        match json::value_at(s, p + 1) {
            Ok(t) => json::value_at(s, p) == Ok::<(Json, nat), crate::error::Fault>((t.0, t.1 + 1)),
            Err(e) => json::value_at(s, p) == Err::<(Json, nat), crate::error::Fault>(e),
        },
{
    json::lemma_skip_ws(s, p);
    json::lemma_skip_ws(s, p + 1);
    assert(json::skip_ws(s, p) == json::skip_ws(s, p + 1));
}

/// The text of member `k` when it is a string, else the empty text.
pub open spec fn member_text(j: Json, k: Seq<char>) -> Seq<char> {
    match j.get(k) {
        Some(Json::Str(t)) => t,
        _ => Seq::empty(),
    }
}

/// A decoded track carries the members of its JSON object: `id`, and the
/// strings `artist`, `song`, `image100`, `image200` and `time_formatted`
/// (empty when missing or not strings).
pub proof fn tracks_keep_their_members(j: Json)
    ensures
        api::track_from(j) matches Ok(t) ==> {
            &&& j.get("id"@) matches Some(v) && v.integer() == Some(t.id)
            &&& t.artist == member_text(j, "artist"@)
            &&& t.song == member_text(j, "song"@)
            &&& t.image100 == member_text(j, "image100"@)
            &&& t.image200 == member_text(j, "image200"@)
            &&& t.time_formatted == member_text(j, "time_formatted"@)
        },
        api::track_from(j) is Err <==> !(j.get("id"@) matches Some(v) && v.integer() is Some),
{
}

/// A decoded station carries the members of its JSON object: `id`, the
/// strings `prefix`, `title`, `tooltip`, its four streams and its colour.
pub proof fn stations_keep_their_members(j: Json)
    ensures
        api::station_from(j) matches Ok(s) ==> {
            &&& j.get("id"@) matches Some(v) && v.integer() == Some(s.id)
            &&& j.get("prefix"@) == Some(Json::Str(s.prefix))
            &&& j.get("title"@) == Some(Json::Str(s.title))
            &&& j.get("tooltip"@) == Some(Json::Str(s.tooltip))
            &&& s.stream_320 == member_text(j, "stream_320"@)
            &&& s.stream_hls == member_text(j, "stream_hls"@)
            &&& s.stream_128 == member_text(j, "stream_128"@)
            &&& s.stream_64 == member_text(j, "stream_64"@)
            &&& s.icon_fill == member_text(j, "icon_fill_colored"@)
        },
{
}

/// The `m`-th station from `start` going `direction`, round a list of `n`.
pub open spec fn step_at(start: int, direction: int, m: int, n: int) -> int {
    (start + direction * m) % n
}

proof fn lemma_first_playable_steps(vs: Seq<Station>, start: int, direction: int, k: int)
    requires
        0 <= k,
        vs.len() > 0,
    ensures
        app::first_playable(vs, start, direction, k) matches Some(i) ==> exists|m: int|
            k <= m < vs.len() && i == #[trigger] step_at(start, direction, m, vs.len() as int)
                && api::stream_of(vs[i]@) is Some && forall|j: int|
                k <= j < m ==> api::stream_of(vs[#[trigger] step_at(start, direction, j, vs.len() as int)]@) is None,
        app::first_playable(vs, start, direction, k) is None ==> forall|j: int|
            k <= j < vs.len() ==> api::stream_of(vs[#[trigger] step_at(start, direction, j, vs.len() as int)]@) is None,
    decreases vs.len() - k,
{
    let n = vs.len() as int;
    if k < n {
        lemma_first_playable_steps(vs, start, direction, k + 1);
        let i = step_at(start, direction, k, n);
        assert(i == (start + direction * k) % n);
        if api::stream_of(vs[i]@) is Some {
            assert(app::first_playable(vs, start, direction, k) == Some(i));
        } else {
            match app::first_playable(vs, start, direction, k + 1) {
                Some(x) => {
                    let m = choose|m: int|
                        k + 1 <= m < vs.len() && x == #[trigger] step_at(start, direction, m, n)
                            && api::stream_of(vs[x]@) is Some && forall|j: int|
                            k + 1 <= j < m ==> api::stream_of(vs[#[trigger] step_at(start, direction, j, n)]@) is None;
                    assert(forall|j: int| k <= j < m ==> api::stream_of(vs[#[trigger] step_at(start, direction, j, n)]@) is None);
                },
                None => {},
            }
        }
    }
}

/// Previous and next skip stations without a stream: going from the start in
/// the given direction round the shown list, they play the first station that
/// has a stream, every station passed on the way has none, and nothing plays
/// only when no shown station has a stream.
pub proof fn skipping_passes_only_stations_without_a_stream(a0: App, direction: isize, a1: App, r: Action)
    requires
        a0.wf(),
        a0.shown().len() > 0,
        app::skips(a0, direction, a1, r),
    ensures
        ({
            let vs = a0.shown();
            let n = vs.len() as int;
            let start = app::skip_start(a0, direction);
            &&& r is Play ==> exists|m: int|
                0 <= m < n && (a1.now matches Some(x) && x@ == vs[#[trigger] step_at(start, direction as int, m, n)]@)
                    && forall|j: int| 0 <= j < m ==> api::stream_of(vs[#[trigger] step_at(start, direction as int, j, n)]@) is None
            &&& !(r is Play) ==> forall|j: int|
                0 <= j < n ==> api::stream_of(vs[#[trigger] step_at(start, direction as int, j, n)]@) is None
        }),
{
    let vs = a0.shown();
    let n = vs.len() as int;
    let start = app::skip_start(a0, direction);
    app::shown_fits(a0);
    lemma_first_playable_steps(vs, start, direction as int, 0);
    app::lemma_first_playable(vs, start, direction as int, 0);
    match app::first_playable(vs, start, direction as int, 0) {
        Some(i) => {
            let mid = App { stations: Some(i as usize), ..a0 };
            assert(mid.shown() == vs);
            assert(mid.selected() == Some(vs[i]));
            let m = choose|m: int|
                0 <= m < vs.len() && i == #[trigger] step_at(start, direction as int, m, n)
                    && api::stream_of(vs[i]@) is Some && forall|j: int|
                    0 <= j < m ==> api::stream_of(vs[#[trigger] step_at(start, direction as int, j, n)]@) is None;
            assert(a1.now matches Some(x) && x@ == vs[step_at(start, direction as int, m, n)]@);
        },
        None => {},
    }
}

/// Decoding a list of tracks: it succeeds exactly when every item decodes, and
/// then gives one decoded item per JSON item, in the same order.
pub proof fn decoded_tracks_follow_the_items(items: Seq<Json>)
    ensures
        api::tracks_from(items) is Ok <==> forall|i: int| 0 <= i < items.len() ==> #[trigger] api::track_from(items[i]) is Ok,
        api::tracks_from(items) matches Ok(r) ==> r.len() == items.len() && forall|i: int|
            0 <= i < items.len() ==> #[trigger] api::track_from(items[i]) == Ok::<api::TrackView, crate::error::Fault>(r[i]),
    decreases items.len(),
{
    if items.len() > 0 {
        let p = items.drop_last();
        let n = items.len() - 1;
        assert(items.last() == items[n]);
        assert(forall|i: int| 0 <= i < p.len() ==> #[trigger] p[i] == items[i]);
        decoded_tracks_follow_the_items(p);
        match api::tracks_from(p) {
            Ok(r0) => match api::track_from(items[n]) {
                Ok(g) => {
                    let r = r0.push(g);
                    assert(api::tracks_from(items) == Ok::<_, crate::error::Fault>(r));
                    assert forall|i: int| 0 <= i < items.len() implies #[trigger] api::track_from(items[i]) == Ok::<_, crate::error::Fault>(r[i]) by {
                        if i < n {
                            assert(api::track_from(p[i]) == Ok::<_, crate::error::Fault>(r0[i]));
                        }
                    }
                },
                Err(_) => {
                    assert(!(api::track_from(items[n]) is Ok));
                },
            },
            Err(_) => {
                let i = choose|i: int| 0 <= i < p.len() && !(#[trigger] api::track_from(p[i]) is Ok);
                assert(!(api::track_from(items[i]) is Ok));
            },
        }
    }
}

/// Decoding a list of stations: it succeeds exactly when every item decodes, and
/// then gives one decoded item per JSON item, in the same order.
pub proof fn decoded_stations_follow_the_items(items: Seq<Json>)
    ensures
        api::stations_from(items) is Ok <==> forall|i: int| 0 <= i < items.len() ==> #[trigger] api::station_from(items[i]) is Ok,
        api::stations_from(items) matches Ok(r) ==> r.len() == items.len() && forall|i: int|
            0 <= i < items.len() ==> #[trigger] api::station_from(items[i]) == Ok::<StationView, crate::error::Fault>(r[i]),
    decreases items.len(),
{
    if items.len() > 0 {
        let p = items.drop_last();
        let n = items.len() - 1;
        assert(items.last() == items[n]);
        assert(forall|i: int| 0 <= i < p.len() ==> #[trigger] p[i] == items[i]);
        decoded_stations_follow_the_items(p);
        match api::stations_from(p) {
            Ok(r0) => match api::station_from(items[n]) {
                Ok(g) => {
                    let r = r0.push(g);
                    assert(api::stations_from(items) == Ok::<_, crate::error::Fault>(r));
                    assert forall|i: int| 0 <= i < items.len() implies #[trigger] api::station_from(items[i]) == Ok::<_, crate::error::Fault>(r[i]) by {
                        if i < n {
                            assert(api::station_from(p[i]) == Ok::<_, crate::error::Fault>(r0[i]));
                        }
                    }
                },
                Err(_) => {
                    assert(!(api::station_from(items[n]) is Ok));
                },
            },
            Err(_) => {
                let i = choose|i: int| 0 <= i < p.len() && !(#[trigger] api::station_from(p[i]) is Ok);
                assert(!(api::station_from(items[i]) is Ok));
            },
        }
    }
}

/// Decoding a list of genres: it succeeds exactly when every item decodes, and
/// then gives one decoded item per JSON item, in the same order.
pub proof fn decoded_genres_follow_the_items(items: Seq<Json>)
    ensures
        api::genres_from(items) is Ok <==> forall|i: int| 0 <= i < items.len() ==> #[trigger] api::genre_from(items[i]) is Ok,
        api::genres_from(items) matches Ok(r) ==> r.len() == items.len() && forall|i: int|
            0 <= i < items.len() ==> #[trigger] api::genre_from(items[i]) == Ok::<api::GenreView, crate::error::Fault>(r[i]),
    decreases items.len(),
{
    if items.len() > 0 {
        let p = items.drop_last();
        let n = items.len() - 1;
        assert(items.last() == items[n]);
        assert(forall|i: int| 0 <= i < p.len() ==> #[trigger] p[i] == items[i]);
        decoded_genres_follow_the_items(p);
        match api::genres_from(p) {
            Ok(r0) => match api::genre_from(items[n]) {
                Ok(g) => {
                    let r = r0.push(g);
                    assert(api::genres_from(items) == Ok::<_, crate::error::Fault>(r));
                    assert forall|i: int| 0 <= i < items.len() implies #[trigger] api::genre_from(items[i]) == Ok::<_, crate::error::Fault>(r[i]) by {
                        if i < n {
                            assert(api::genre_from(p[i]) == Ok::<_, crate::error::Fault>(r0[i]));
                        }
                    }
                },
                Err(_) => {
                    assert(!(api::genre_from(items[n]) is Ok));
                },
            },
            Err(_) => {
                let i = choose|i: int| 0 <= i < p.len() && !(#[trigger] api::genre_from(p[i]) is Ok);
                assert(!(api::genre_from(items[i]) is Ok));
            },
        }
    }
}

} // verus!
