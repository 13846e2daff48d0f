//! The line console: a station list with a text filter and a selection, driven
//! by typed commands. Fetching, playing and printing are left to the caller,
//! which performs each [`Request`] and hands the outcome back.
use vstd::prelude::*;

use crate::api::{self, Station, StationView, Track, TrackView};
use crate::player::PlayerState;
use crate::text::{
    self, contains_text, debug_quoted, join_from, natural, pad_left, pad_right, parse_usize,
    same_text, to_lower, truncate, words,
};

verus! {

/// The list of commands, as `help` shows it.
pub open spec fn help_line() -> Seq<char> {
    "commands: help | list | search <text> | clear | play [n|text] | stop | now | refresh | up | down | quit"@
}

fn help_text() -> (r: &'static str)
    ensures
        r@ == help_line(),
{
    "commands: help | list | search <text> | clear | play [n|text] | stop | now | refresh | up | down | quit"
}

/// What the caller must do after a command.
#[derive(Debug)]
pub enum Request {
    /// Read the next command.
    Nothing,
    Quit,
    /// Fetch the station list and hand it to [`Console::stations_loaded`]
    /// (or the failure to [`Console::fail`]).
    Refresh,
    /// Stop the player.
    Stop,
    /// Fetch the track this station plays and hand it to [`Console::now_playing_loaded`].
    NowPlaying(Station),
    /// Play the stream at this URL; then fetch the track the station plays and
    /// hand it to [`Console::playing`] (or a failure to start to [`Console::fail`]).
    Play(Station, String),
}

/// The console's state.
#[derive(Debug)]
pub struct Console {
    pub stations: Vec<Station>,
    pub filter: String,
    /// The index of the selected station among the filtered ones.
    pub selected: usize,
    pub message: String,
    pub player_state: PlayerState,
    pub player_error: Option<String>,
    pub player_url: Option<String>,
}

/// The kinds of command, by their first word.
#[derive(Debug, Clone, Copy, PartialEq, Eq, Structural)]
pub enum Kind {
    Quit,
    Help,
    List,
    Search,
    Clear,
    Refresh,
    Up,
    Down,
    Stop,
    Now,
    Play,
    Unknown,
}

pub open spec fn command_kind(h: Seq<char>) -> Kind {
    if h == "q"@ || h == "quit"@ || h == "exit"@ {
        Kind::Quit
    } else if h == "help"@ || h == "?"@ {
        Kind::Help
    } else if h == "list"@ {
        Kind::List
    } else if h == "search"@ || h == "filter"@ {
        Kind::Search
    } else if h == "clear"@ {
        Kind::Clear
    } else if h == "refresh"@ {
        Kind::Refresh
    } else if h == "up"@ || h == "k"@ {
        Kind::Up
    } else if h == "down"@ || h == "j"@ {
        Kind::Down
    } else if h == "stop"@ {
        Kind::Stop
    } else if h == "now"@ {
        Kind::Now
    } else if h == "play"@ || h == "p"@ {
        Kind::Play
    } else {
        Kind::Unknown
    }
}

fn kind_of(h: &str) -> (k: Kind)
    ensures
        k == command_kind(h@),
{
    if same_text(h, "q") || same_text(h, "quit") || same_text(h, "exit") {
        Kind::Quit
    } else if same_text(h, "help") || same_text(h, "?") {
        Kind::Help
    } else if same_text(h, "list") {
        Kind::List
    } else if same_text(h, "search") || same_text(h, "filter") {
        Kind::Search
    } else if same_text(h, "clear") {
        Kind::Clear
    } else if same_text(h, "refresh") {
        Kind::Refresh
    } else if same_text(h, "up") || same_text(h, "k") {
        Kind::Up
    } else if same_text(h, "down") || same_text(h, "j") {
        Kind::Down
    } else if same_text(h, "stop") {
        Kind::Stop
    } else if same_text(h, "now") {
        Kind::Now
    } else if same_text(h, "play") || same_text(h, "p") {
        Kind::Play
    } else {
        Kind::Unknown
    }
}

/// The first word of a command, or nothing.
pub open spec fn head_of(command: Seq<char>) -> Seq<char> {
    let w = text::words_of(command);
    if w.len() > 0 {
        w[0]
    } else {
        Seq::empty()
    }
}

/// The other words of a command, joined by single spaces.
pub open spec fn tail_of(command: Seq<char>) -> Seq<char> {
    let w = text::words_of(command);
    if w.len() > 1 {
        text::joined(w.skip(1))
    } else {
        Seq::empty()
    }
}

/// Whether a station matches a lower-case needle: by title, description or prefix.
pub open spec fn station_matches(s: StationView, needle: Seq<char>) -> bool {
    ||| text::has_infix(text::lowercase(s.title), needle)
    ||| text::has_infix(text::lowercase(s.tooltip), needle)
    ||| text::has_infix(text::lowercase(s.prefix), needle)
}

/// The stations that match a lower-case needle, in order.
pub open spec fn matching(stations: Seq<Station>, needle: Seq<char>) -> Seq<Station>
    decreases stations.len(),
{
    if stations.len() == 0 {
        Seq::empty()
    } else {
        let rest = matching(stations.drop_last(), needle);
        if station_matches(stations.last()@, needle) {
            rest.push(stations.last())
        } else {
            rest
        }
    }
}

/// The stations that a filter shows: all of them when it is empty.
pub open spec fn filtered(stations: Seq<Station>, filter: Seq<char>) -> Seq<Station> {
    if filter.len() == 0 {
        stations
    } else {
        matching(stations, text::lowercase(filter))
    }
}

/// The element at `i`, if there is one.
pub open spec fn element<T>(s: Seq<T>, i: int) -> Option<T> {
    if 0 <= i < s.len() {
        Some(s[i])
    } else {
        None
    }
}

/// The first station whose lower-case title holds the needle.
pub open spec fn first_titled(s: Seq<Station>, needle: Seq<char>) -> Option<Station>
    decreases s.len(),
{
    if s.len() == 0 {
        None
    } else if text::has_infix(text::lowercase(s[0].title@), needle) {
        Some(s[0])
    } else {
        first_titled(s.drop_first(), needle)
    }
}

/// The selection one up, wrapping to the last station.
pub open spec fn up_index(selected: usize, len: nat) -> usize {
    if len == 0 {
        selected
    } else if selected == 0 {
        (len - 1) as usize
    } else {
        (selected - 1) as usize
    }
}

/// The selection one down, wrapping to the first station.
pub open spec fn down_index(selected: usize, len: nat) -> usize {
    if len == 0 {
        selected
    } else {
        ((selected + 1) % (len as int)) as usize
    }
}

/// Whether a track names what plays: a song or an artist.
pub open spec fn names_music(t: TrackView) -> bool {
    t.song.len() > 0 || t.artist.len() > 0
}

impl Console {
    /// The stations that the filter shows.
    pub open spec fn shown(&self) -> Seq<Station> {
        filtered(self.stations@, self.filter@)
    }

    /// The station that `play` with argument `arg` picks: the selected one
    /// without an argument, the one at a position counted from 1, or the first
    /// whose title holds the argument, ignoring case.
    pub open spec fn play_target(&self, arg: Seq<char>) -> Option<Station> {
        if arg.len() == 0 {
            element(self.shown(), self.selected as int)
        } else {
            match text::usize_from_text(arg) {
                Some(n) => element(self.shown(), if n == 0 { 0 } else { n - 1 }),
                None => first_titled(self.shown(), text::lowercase(arg)),
            }
        }
    }

    /// All but the message are as in `other`.
    pub open spec fn same_but_message(&self, other: &Console) -> bool {
        &&& self.stations == other.stations
        &&& self.filter == other.filter
        &&& self.selected == other.selected
        &&& self.player_state == other.player_state
        &&& self.player_error == other.player_error
        &&& self.player_url == other.player_url
    }

    /// The console after loading `stations`: no filter, the first selected.
    pub fn new(stations: Vec<Station>) -> (r: Self)
        ensures
            r.stations == stations,
            r.filter@ == Seq::<char>::empty(),
            r.selected == 0,
            r.message@ == "Loaded stations"@,
            r.player_state == PlayerState::Idle,
            r.player_error is None,
            r.player_url is None,
    {
        Console {
            stations,
            filter: String::new(),
            selected: 0,
            message: "Loaded stations".to_owned(),
            player_state: PlayerState::Idle,
            player_error: None,
            player_url: None,
        }
    }

    /// The stations that the filter shows.
    pub fn filtered_stations(&self) -> (r: Vec<&Station>)
        ensures
            r@.len() == self.shown().len(),
            forall|i: int| 0 <= i < r@.len() ==> *r@[i] == self.shown()[i],
    {
        let mut out: Vec<&Station> = Vec::new();
        if self.filter.as_str().is_empty() {
            let mut i: usize = 0;
            while i < self.stations.len()
                invariant
                    self.filter@.len() == 0,
                    i <= self.stations@.len(),
                    out@.len() == i,
                    forall|k: int| 0 <= k < i ==> *out@[k] == self.stations@[k],
                decreases self.stations@.len() - i,
            {
                out.push(&self.stations[i]);
                i += 1;
            }
            return out;
        }
        let needle = to_lower(self.filter.as_str());
        let ghost all = self.stations@;
        let mut i: usize = 0;
        while i < self.stations.len()
            invariant
                all == self.stations@,
                self.filter@.len() > 0,
                needle@ == text::lowercase(self.filter@),
                i <= all.len(),
                out@.len() == matching(all.take(i as int), needle@).len(),
                forall|k: int|
                    0 <= k < out@.len() ==> *out@[k] == matching(all.take(i as int), needle@)[k],
            decreases all.len() - i,
        {
            assert(all.take(i + 1).drop_last() =~= all.take(i as int));
            assert(all.take(i + 1).last() == all[i as int]);
            let station = &self.stations[i];
            let title = to_lower(station.title.as_str());
            let tooltip = to_lower(station.tooltip.as_str());
            let prefix = to_lower(station.prefix.as_str());
            if contains_text(title.as_str(), needle.as_str()) || contains_text(
                tooltip.as_str(),
                needle.as_str(),
            ) || contains_text(prefix.as_str(), needle.as_str()) {
                out.push(station);
            }
            i += 1;
        }
        assert(all.take(i as int) =~= all);
        out
    }

    /// The first filtered station whose lower-case title holds `needle`.
    fn find_titled(&self, needle: &str) -> (r: Option<&Station>)
        ensures
            match first_titled(self.shown(), needle@) {
                Some(s) => r matches Some(x) && *x == s,
                None => r is None,
            },
    {
        let shown = self.filtered_stations();
        let ghost all = self.shown();
        let mut i: usize = 0;
        assert(all.skip(0) =~= all);
        while i < shown.len()
            invariant
                all == self.shown(),
                shown@.len() == all.len(),
                forall|k: int| 0 <= k < shown@.len() ==> *shown@[k] == all[k],
                i <= all.len(),
                first_titled(all, needle@) == first_titled(all.skip(i as int), needle@),
            decreases all.len() - i,
        {
            let title = to_lower(shown[i].title.as_str());
            assert(all.skip(i as int)[0] == all[i as int]);
            if contains_text(title.as_str(), needle) {
                return Some(shown[i]);
            }
            assert(all.skip(i as int).drop_first() =~= all.skip(i + 1));
            i += 1;
        }
        assert(all.skip(i as int) =~= Seq::<Station>::empty());
        None
    }

    /// Carries out one command line.
    pub fn handle_command(&mut self, command: &str) -> (r: Request)
        requires
            command_kind(head_of(command@)) == Kind::Down && old(self).shown().len() > 0
                ==> old(self).selected < usize::MAX,
        ensures
            final(self).stations == old(self).stations,
            final(self).player_state == old(self).player_state,
            final(self).player_error == old(self).player_error,
            final(self).player_url == old(self).player_url,
            match command_kind(head_of(command@)) {
                Kind::Quit => r is Quit && *final(self) == *old(self),
                Kind::Help => r is Nothing && final(self).same_but_message(&*old(self))
                    && final(self).message@ == help_line(),
                Kind::List => r is Nothing && *final(self) == *old(self),
                Kind::Search => {
                    let t = tail_of(command@);
                    &&& r is Nothing
                    &&& final(self).filter@ == t
                    &&& final(self).selected == 0
                    &&& final(self).message@ == (if t.len() == 0 {
                        "filter cleared"@
                    } else {
                        "filter set to "@ + text::debug_text(t)
                    })
                },
                Kind::Clear => {
                    &&& r is Nothing
                    &&& final(self).filter@ == Seq::<char>::empty()
                    &&& final(self).selected == 0
                    &&& final(self).message@ == "filter cleared"@
                },
                Kind::Refresh => r is Refresh && *final(self) == *old(self),
                Kind::Up => {
                    &&& r is Nothing
                    &&& final(self).filter == old(self).filter
                    &&& final(self).message == old(self).message
                    &&& final(self).selected == up_index(old(self).selected, old(self).shown().len())
                },
                Kind::Down => {
                    &&& r is Nothing
                    &&& final(self).filter == old(self).filter
                    &&& final(self).message == old(self).message
                    &&& final(self).selected == down_index(
                        old(self).selected,
                        old(self).shown().len(),
                    )
                },
                Kind::Stop => r is Stop && final(self).same_but_message(&*old(self))
                    && final(self).message@ == "stopped playback"@,
                Kind::Now => match element(old(self).shown(), old(self).selected as int) {
                    Some(s) => *final(self) == *old(self) && (r matches Request::NowPlaying(x)
                        && x@ == s@),
                    None => r is Nothing && final(self).same_but_message(&*old(self))
                        && final(self).message@ == "now playing unavailable: no station selected"@,
                },
                Kind::Play => match old(self).play_target(tail_of(command@)) {
                    None => r is Nothing && final(self).same_but_message(&*old(self))
                        && final(self).message@ == "error: no station matched the request"@,
                    Some(s) => match api::stream_of(s@) {
                        None => r is Nothing && final(self).same_but_message(&*old(self))
                            && final(self).message@ == "error: station has no stream URL"@,
                        Some(u) => *final(self) == *old(self) && (r matches Request::Play(x, url)
                            && x@ == s@ && url@ == u),
                    },
                },
                Kind::Unknown => r is Nothing && final(self).same_but_message(&*old(self))
                    && final(self).message@ == "unknown command: "@ + head_of(command@),
            },
    {
        let parts = words(command);
        let ghost w = text::words_of(command@);
        assert(text::texts_view(parts@) == w);
        let head: &str = if parts.len() > 0 {
            assert(w[0] == parts@[0]@);
            parts[0].as_str()
        } else {
            ""
        };
        let tail = join_from(&parts, 1);
        assert(head@ == head_of(command@)) by {
            if parts@.len() == 0 {
                assert(""@.len() == 0) by {
                    reveal_strlit("");
                }
                assert(""@ =~= Seq::<char>::empty());
            }
        }
        assert(tail@ == tail_of(command@));
        match kind_of(head) {
            Kind::Quit => Request::Quit,
            Kind::Help => {
                self.message = help_text().to_owned();
                Request::Nothing
            },
            Kind::List => Request::Nothing,
            Kind::Search => {
                self.message = if tail.as_str().is_empty() {
                    "filter cleared".to_owned()
                } else {
                    "filter set to ".to_owned().concat(debug_quoted(tail.as_str()).as_str())
                };
                self.filter = tail;
                self.selected = 0;
                Request::Nothing
            },
            Kind::Clear => {
                self.filter = String::new();
                self.selected = 0;
                self.message = "filter cleared".to_owned();
                Request::Nothing
            },
            Kind::Refresh => Request::Refresh,
            Kind::Up => {
                let len = self.filtered_stations().len();
                if len > 0 {
                    if self.selected == 0 {
                        self.selected = len - 1;
                    } else {
                        self.selected = self.selected - 1;
                    }
                }
                Request::Nothing
            },
            Kind::Down => {
                let len = self.filtered_stations().len();
                if len > 0 {
                    self.selected = (self.selected + 1) % len;
                }
                Request::Nothing
            },
            Kind::Stop => {
                self.message = "stopped playback".to_owned();
                Request::Stop
            },
            Kind::Now => {
                let shown = self.filtered_stations();
                if self.selected < shown.len() {
                    Request::NowPlaying(shown[self.selected].clone())
                } else {
                    self.message = "now playing unavailable: no station selected".to_owned();
                    Request::Nothing
                }
            },
            Kind::Play => {
                let target = self.pick(tail.as_str());
                match target {
                    None => {
                        self.message = "error: no station matched the request".to_owned();
                        Request::Nothing
                    },
                    Some(station) => match station.stream_url() {
                        None => {
                            self.message = "error: station has no stream URL".to_owned();
                            Request::Nothing
                        },
                        Some(url) => Request::Play(station.clone(), url.to_owned()),
                    },
                }
            },
            Kind::Unknown => {
                self.message = "unknown command: ".to_owned().concat(head);
                Request::Nothing
            },
        }
    }

    /// The station that `play` with argument `arg` picks.
    fn pick(&self, arg: &str) -> (r: Option<&Station>)
        ensures
            match self.play_target(arg@) {
                Some(s) => r matches Some(x) && *x == s,
                None => r is None,
            },
    {
        if arg.is_empty() {
            let shown = self.filtered_stations();
            if self.selected < shown.len() {
                Some(shown[self.selected])
            } else {
                None
            }
        } else {
            match parse_usize(arg) {
                Some(n) => {
                    let shown = self.filtered_stations();
                    let i = if n == 0 { 0 } else { n - 1 };
                    if i < shown.len() {
                        Some(shown[i])
                    } else {
                        None
                    }
                },
                None => {
                    let needle = to_lower(arg);
                    self.find_titled(needle.as_str())
                },
            }
        }
    }
}

/// The message after asking what a station plays.
pub open spec fn now_playing_text(s: StationView, track: Result<Option<Track>, String>) -> Seq<char> {
    match track {
        Ok(Some(t)) => if names_music(t@) {
            s.title + ": "@ + t.artist@ + " - "@ + t.song@ + " ("@ + t.time_formatted@ + ")"@
        } else {
            s.title + ": no recent track data"@
        },
        Ok(None) => s.title + ": no recent track data"@,
        Err(e) => "now playing unavailable: "@ + e@,
    }
}

/// The message after a station starts to play.
pub open spec fn playing_text(s: StationView, track: Result<Option<Track>, String>) -> Seq<char> {
    match track {
        Ok(Some(t)) => if names_music(t@) {
            "playing "@ + s.title + " - "@ + t.artist@ + " / "@ + t.song@
        } else {
            "playing "@ + s.title
        },
        _ => "playing "@ + s.title,
    }
}

/// The name of a player state.
pub open spec fn state_name(s: PlayerState) -> Seq<char> {
    match s {
        PlayerState::Idle => "idle"@,
        PlayerState::Buffering => "buffering"@,
        PlayerState::Playing => "playing"@,
        PlayerState::Paused => "paused"@,
        PlayerState::Error => "error"@,
    }
}

fn state_text(s: PlayerState) -> (r: &'static str)
    ensures
        r@ == state_name(s),
{
    match s {
        PlayerState::Idle => "idle",
        PlayerState::Buffering => "buffering",
        PlayerState::Playing => "playing",
        PlayerState::Paused => "paused",
        PlayerState::Error => "error",
    }
}

/// The most stations that the screen lists.
pub const LISTED: usize = 20;

/// One line of the station list: a mark on the selected station, its position
/// counted from 1, its title and description cut to their columns, and its stream.
pub open spec fn row_text(s: StationView, index: nat, selected: usize) -> Seq<char> {
    (if index == selected {
        ">"@
    } else {
        " "@
    }) + " "@ + text::padded_left(text::nat_text(index + 1), 3) + ". "@ + text::padded_right(
        text::truncated(s.title, 28),
        28,
    ) + " "@ + text::padded_right(text::truncated(s.tooltip, 24), 24) + " "@ + (match api::stream_of(
        s,
    ) {
        Some(u) => u,
        None => "<no stream>"@,
    })
}

fn row(station: &Station, index: usize, selected: usize) -> (r: String)
    requires
        index < LISTED,
    ensures
        r@ == row_text(station@, index as nat, selected),
{
    let mut line = if index == selected {
        ">".to_owned()
    } else {
        " ".to_owned()
    };
    line.append(" ");
    let position = natural((index + 1) as u64);
    line.append(pad_left(position.as_str(), 3).as_str());
    line.append(". ");
    line.append(pad_right(truncate(station.title.as_str(), 28).as_str(), 28).as_str());
    line.append(" ");
    line.append(pad_right(truncate(station.tooltip.as_str(), 24).as_str(), 24).as_str());
    line.append(" ");
    match station.stream_url() {
        Some(u) => line.append(u),
        None => line.append("<no stream>"),
    }
    line
}

impl Console {
    /// The lines of the screen: a header with the counts, the player and the
    /// message, at most `LISTED` stations, and the list of commands.
    pub open spec fn screen(&self) -> Seq<Seq<char>> {
        let shown = self.shown();
        let n = shown.len();
        let head = seq![
            "radiome - minimal Radio Record player"@,
            "stations: "@ + text::nat_text(self.stations@.len()) + " | filter: "@ + (if self.filter@.len()
                == 0 {
                "<none>"@
            } else {
                self.filter@
            }),
            "player: "@ + state_name(self.player_state) + (match self.player_error {
                Some(m) => " ("@ + m@ + ")"@,
                None => Seq::empty(),
            }),
        ];
        let url = match self.player_url {
            Some(u) => seq!["url: "@ + u@],
            None => Seq::empty(),
        };
        let middle = seq![
            "message: "@ + self.message@,
            Seq::empty(),
            "visible stations: "@ + text::nat_text(n),
        ];
        let listed = if n < LISTED {
            n
        } else {
            LISTED as nat
        };
        let rows = Seq::new(listed, |i: int| row_text(shown[i]@, i as nat, self.selected));
        let more = if n > LISTED {
            seq!["... and "@ + text::nat_text((n - LISTED) as nat) + " more"@]
        } else {
            Seq::empty()
        };
        head + url + middle + rows + more + seq![Seq::empty(), help_line()]
    }

    /// Takes a reloaded station list; the first station is selected.
    pub fn stations_loaded(&mut self, stations: Vec<Station>)
        ensures
            final(self).stations == stations,
            final(self).filter == old(self).filter,
            final(self).selected == 0,
            final(self).player_state == old(self).player_state,
            final(self).player_error == old(self).player_error,
            final(self).player_url == old(self).player_url,
            final(self).message@ == "reloaded "@ + text::nat_text(stations@.len()) + " stations"@,
    {
        let count = natural(stations.len() as u64);
        self.stations = stations;
        self.selected = 0;
        self.message = "reloaded ".to_owned().concat(count.as_str()).concat(" stations");
    }

    /// Shows what went wrong with a command.
    pub fn fail(&mut self, error: &str)
        ensures
            final(self).same_but_message(&*old(self)),
            final(self).message@ == "error: "@ + error@,
    {
        self.message = "error: ".to_owned().concat(error);
    }

    /// Shows what a station plays, or why that is unknown.
    pub fn now_playing_loaded(&mut self, station: &Station, track: Result<Option<Track>, String>)
        ensures
            final(self).same_but_message(&*old(self)),
            final(self).message@ == now_playing_text(station@, track),
    {
        self.message = match &track {
            Ok(Some(t)) => if !t.song.as_str().is_empty() || !t.artist.as_str().is_empty() {
                station.title.clone().concat(": ").concat(t.artist.as_str()).concat(" - ").concat(
                    t.song.as_str(),
                ).concat(" (").concat(t.time_formatted.as_str()).concat(")")
            } else {
                station.title.clone().concat(": no recent track data")
            },
            Ok(None) => station.title.clone().concat(": no recent track data"),
            Err(e) => "now playing unavailable: ".to_owned().concat(e.as_str()),
        };
    }

    /// Shows the station that started to play and, when known, its track.
    pub fn playing(&mut self, station: &Station, track: Result<Option<Track>, String>)
        ensures
            final(self).same_but_message(&*old(self)),
            final(self).message@ == playing_text(station@, track),
    {
        let title = "playing ".to_owned().concat(station.title.as_str());
        self.message = match &track {
            Ok(Some(t)) => if !t.song.as_str().is_empty() || !t.artist.as_str().is_empty() {
                title.concat(" - ").concat(t.artist.as_str()).concat(" / ").concat(t.song.as_str())
            } else {
                title
            },
            _ => title,
        };
    }

    /// The lines of the screen, first to last.
    pub fn screen_lines(&self) -> (r: Vec<String>)
        ensures
            text::texts_view(r@) == self.screen(),
    {
        let shown = self.filtered_stations();
        let ghost all = self.shown();
        let mut out: Vec<String> = Vec::new();
        push_line(&mut out, "radiome - minimal Radio Record player".to_owned());
        let filter: &str = if self.filter.as_str().is_empty() {
            "<none>"
        } else {
            self.filter.as_str()
        };
        push_line(&mut out, 
            "stations: ".to_owned().concat(natural(self.stations.len() as u64).as_str()).concat(
                " | filter: ",
            ).concat(filter),
        );
        let mut player = "player: ".to_owned().concat(state_text(self.player_state));
        match &self.player_error {
            Some(m) => {
                player = player.concat(" (").concat(m.as_str()).concat(")");
            },
            None => {
                proof {
                    assert(player@ + Seq::<char>::empty() =~= player@);
                }
            },
        }
        push_line(&mut out, player);
        let ghost lines3 = text::texts_view(out@);
        assert(lines3.len() == 3);
        assert(lines3[0] == "radiome - minimal Radio Record player"@);
        assert(lines3[1] == "stations: "@ + text::nat_text(self.stations@.len()) + " | filter: "@ + (if self.filter@.len() == 0 { "<none>"@ } else { self.filter@ }));
        assert(lines3[2] == "player: "@ + state_name(self.player_state) + (match self.player_error {
                Some(m) => " ("@ + m@ + ")"@,
                None => Seq::empty(),
            }));
        match &self.player_url {
            Some(u) => push_line(&mut out, "url: ".to_owned().concat(u.as_str())),
            None => {},
        }
        push_line(&mut out, "message: ".to_owned().concat(self.message.as_str()));
        push_line(&mut out, String::new());
        push_line(&mut out, "visible stations: ".to_owned().concat(natural(shown.len() as u64).as_str()));
        let ghost n = all.len();
        let ghost top = texts_view_prefix(*self);
        assert(text::texts_view(out@) =~= top) by {
            reveal_strlit("");
        }
        let listed = if shown.len() < LISTED {
            shown.len()
        } else {
            LISTED
        };
        let mut i: usize = 0;
        while i < listed
            invariant
                all == self.shown(),
                shown@.len() == all.len(),
                forall|k: int| 0 <= k < shown@.len() ==> *shown@[k] == all[k],
                listed <= LISTED,
                listed <= shown@.len(),
                i <= listed,
                text::texts_view(out@) == top + Seq::new(
                    i as nat,
                    |k: int| row_text(all[k]@, k as nat, self.selected),
                ),
            decreases listed - i,
        {
            let line = row(shown[i], i, self.selected);
            push_line(&mut out, line);
            i += 1;
            assert(text::texts_view(out@) =~= top + Seq::new(
                i as nat,
                |k: int| row_text(all[k]@, k as nat, self.selected),
            ));
        }
        if shown.len() > LISTED {
            push_line(&mut out, 
                "... and ".to_owned().concat(natural((shown.len() - LISTED) as u64).as_str()).concat(
                    " more",
                ),
            );
        }
        push_line(&mut out, String::new());
        push_line(&mut out, help_text().to_owned());
        assert(text::texts_view(out@) =~= self.screen());
        out
    }
}

fn push_line(out: &mut Vec<String>, line: String)
    ensures
        text::texts_view(final(out)@) == text::texts_view(old(out)@).push(line@),
{
    let ghost l = line@;
    out.push(line);
    assert(text::texts_view(out@) =~= text::texts_view(old(out)@).push(l));
}

/// The lines of the screen above the station list.
pub open spec fn texts_view_prefix(c: Console) -> Seq<Seq<char>> {
    let n = c.shown().len();
    seq![
        "radiome - minimal Radio Record player"@,
        "stations: "@ + text::nat_text(c.stations@.len()) + " | filter: "@ + (if c.filter@.len() == 0 {
            "<none>"@
        } else {
            c.filter@
        }),
        "player: "@ + state_name(c.player_state) + (match c.player_error {
            Some(m) => " ("@ + m@ + ")"@,
            None => Seq::empty(),
        }),
    ] + (match c.player_url {
        Some(u) => seq!["url: "@ + u@],
        None => Seq::empty(),
    }) + seq!["message: "@ + c.message@, Seq::empty(), "visible stations: "@ + text::nat_text(n)]
}

} // verus!
