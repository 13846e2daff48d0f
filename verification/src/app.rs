//! The application state: categories, station selection, favourites, volume
//! and what is playing, and how each key changes them.
use vstd::prelude::*;

use crate::api::{self, Catalog, CatalogView, GenreView, Station, StationView, Track};
use crate::player::{PlayerState, Snapshot};
use crate::settings::{self, Settings};
use crate::text::same_text;

verus! {

broadcast use vstd::std_specs::btree::group_btree_axioms, vstd::laws_cmp::group_laws_cmp;

/// A category of stations: all of them, the favourites, or one genre.
#[derive(Debug)]
pub enum Category {
    All,
    Favorites,
    Genre(i64, String),
}

/// The abstract form of a [`Category`].
pub enum CategoryView {
    All,
    Favorites,
    Genre(i64, Seq<char>),
}

impl View for Category {
    type V = CategoryView;

    open spec fn view(&self) -> CategoryView {
        match self {
            Category::All => CategoryView::All,
            Category::Favorites => CategoryView::Favorites,
            Category::Genre(id, name) => CategoryView::Genre(*id, name@),
        }
    }
}

impl PartialEq for Category {
    fn eq(&self, other: &Self) -> (r: bool) {
        match (self, other) {
            (Category::All, Category::All) => true,
            (Category::Favorites, Category::Favorites) => true,
            (Category::Genre(a, n), Category::Genre(b, m)) => *a == *b && *n == *m,
            _ => false,
        }
    }
}

impl vstd::std_specs::cmp::PartialEqSpecImpl for Category {
    open spec fn obeys_eq_spec() -> bool {
        true
    }

    open spec fn eq_spec(&self, other: &Self) -> bool {
        self@ == other@
    }
}

impl Clone for Category {
    fn clone(&self) -> (r: Self)
        ensures
            r@ == self@,
    {
        match self {
            Category::All => Category::All,
            Category::Favorites => Category::Favorites,
            Category::Genre(id, name) => Category::Genre(*id, name.clone()),
        }
    }
}

/// The English title of a category; genres keep their own name unless it is
/// one of the Russian names that have a translation.
pub open spec fn title_of(c: CategoryView) -> Seq<char> {
    match c {
        CategoryView::All => "All"@,
        CategoryView::Favorites => "Favorites"@,
        CategoryView::Genre(_, name) => if name == "Лето"@ {
            "Summer"@
        } else if name == "Новый год"@ {
            "New Year"@
        } else if name == "Прикол"@ {
            "Fun"@
        } else if name == "Радиошоу"@ {
            "Radio Shows"@
        } else if name == "Сон"@ {
            "Sleep"@
        } else if name == "Спорт"@ {
            "Sport"@
        } else if name == "Эпохи"@ {
            "Eras"@
        } else {
            name
        },
    }
}

impl Category {
    pub fn title(&self) -> (r: &str)
        ensures
            r@ == title_of(self@),
    {
        match self {
            Category::All => "All",
            Category::Favorites => "Favorites",
            Category::Genre(_, name) => {
                let n = name.as_str();
                if same_text(n, "Лето") {
                    "Summer"
                } else if same_text(n, "Новый год") {
                    "New Year"
                } else if same_text(n, "Прикол") {
                    "Fun"
                } else if same_text(n, "Радиошоу") {
                    "Radio Shows"
                } else if same_text(n, "Сон") {
                    "Sleep"
                } else if same_text(n, "Спорт") {
                    "Sport"
                } else if same_text(n, "Эпохи") {
                    "Eras"
                } else {
                    n
                }
            },
        }
    }
}

/// What the caller must do after a key.
#[derive(Debug)]
pub enum Action {
    /// Nothing to do.
    Nothing,
    Quit,
    /// Play the stream at this URL.
    Play(String),
    /// Toggle pause.
    Pause,
    Stop,
    /// Set the player volume (percent).
    Volume(u8),
    /// Reload the catalogue and the history.
    Refresh,
}

/// Media keys.
#[derive(Debug, Clone, Copy, PartialEq, Eq, Structural)]
pub enum MediaKeyCode {
    Play,
    Pause,
    PlayPause,
    TrackNext,
    TrackPrevious,
    /// Any other media key.
    Other,
}

/// The keys that the application reads.
#[derive(Debug, Clone, Copy, PartialEq, Eq, Structural)]
pub enum KeyCode {
    Char(char),
    F(u8),
    Media(MediaKeyCode),
    Up,
    Down,
    Left,
    Right,
    Tab,
    BackTab,
    Enter,
    Esc,
    PageUp,
    PageDown,
    Home,
    End,
    /// Any other key.
    Other,
}

/// Whether a key went down, repeats or went up.
#[derive(Debug, Clone, Copy, PartialEq, Eq, Structural)]
pub enum KeyEventKind {
    Press,
    Repeat,
    Release,
}

/// The modifier keys held with a key.
#[derive(Debug, Clone, Copy, PartialEq, Eq, Structural)]
pub struct KeyModifiers {
    pub shift: bool,
    pub control: bool,
}

impl KeyModifiers {
    /// No modifier.
    pub fn none() -> (r: Self)
        ensures
            !r.shift && !r.control,
    {
        KeyModifiers { shift: false, control: false }
    }
}

/// A key event.
#[derive(Debug, Clone, Copy, PartialEq, Eq, Structural)]
pub struct KeyEvent {
    pub code: KeyCode,
    pub modifiers: KeyModifiers,
    pub kind: KeyEventKind,
}

impl KeyEvent {
    /// A key press.
    pub fn new(code: KeyCode, modifiers: KeyModifiers) -> (r: Self)
        ensures
            r.code == code,
            r.modifiers == modifiers,
            r.kind == KeyEventKind::Press,
    {
        KeyEvent { code, modifiers, kind: KeyEventKind::Press }
    }
}


/// The whole state of the application.
#[derive(Debug)]
pub struct App {
    pub catalog: Option<Catalog>,
    pub categories: Vec<Category>,
    /// The selected category.
    pub category: Option<usize>,
    /// The selected station among the visible ones.
    pub stations: Option<usize>,
    pub settings: Settings,
    /// Whether the settings changed since they were last saved.
    pub dirty: bool,
    pub help: bool,
    pub help_scroll: u16,
    pub show_history: bool,
    /// The station that plays (or was asked to).
    pub now: Option<Station>,
    pub history: Vec<Track>,
    pub history_loading: bool,
    pub history_error: Option<String>,
    pub loading: bool,
    pub error: Option<String>,
    pub playback: Snapshot,
}

/// Whether a station has a genre with id `id`.
pub open spec fn has_genre(s: StationView, id: i64) -> bool {
    exists|k: int| 0 <= k < s.genres.len() && (#[trigger] s.genres[k]).id == id
}

/// The stations of `stations` that belong to category `c`, in order.
pub open spec fn filter_stations(stations: Seq<Station>, c: CategoryView, favorites: Set<i64>) -> Seq<Station>
    decreases stations.len(),
{
    if stations.len() == 0 {
        Seq::empty()
    } else {
        let rest = filter_stations(stations.drop_last(), c, favorites);
        if belongs(stations.last()@, c, favorites) {
            rest.push(stations.last())
        } else {
            rest
        }
    }
}

/// Whether a station belongs to a category.
pub open spec fn belongs(s: StationView, c: CategoryView, favorites: Set<i64>) -> bool {
    match c {
        CategoryView::All => true,
        CategoryView::Favorites => favorites.contains(s.id),
        CategoryView::Genre(id, _) => has_genre(s, id),
    }
}

impl App {
    /// The categories are not empty and the selected one exists.
    pub open spec fn wf(&self) -> bool {
        &&& self.categories@.len() > 0
        &&& self.category matches Some(i) ==> i < self.categories@.len()
    }

    /// The index of the current category.
    pub open spec fn category_index(&self) -> int {
        match self.category {
            Some(i) => i as int,
            None => 0,
        }
    }

    pub open spec fn current(&self) -> CategoryView {
        self.categories@[self.category_index()]@
    }

    /// The stations of the current category.
    pub open spec fn shown(&self) -> Seq<Station> {
        match self.catalog {
            Some(c) => filter_stations(c.stations@, self.current(), self.settings.favorites@),
            None => Seq::empty(),
        }
    }

    /// The selected station, if the selection points at a shown one.
    pub open spec fn selected(&self) -> Option<Station> {
        match self.stations {
            Some(i) => if i < self.shown().len() {
                Some(self.shown()[i as int])
            } else {
                None
            },
            None => None,
        }
    }

    /// The selection after the shown stations changed: the first one, or none.
    pub open spec fn reset_selection(&self) -> Option<usize> {
        if self.shown().len() == 0 {
            None
        } else {
            Some(0)
        }
    }

    pub fn new(settings: Settings) -> (r: Self)
        ensures
            r.wf(),
            r.consistent(),
            r.catalog is None,
            r.categories@.len() == 2,
            r.categories@[0]@ == CategoryView::All,
            r.categories@[1]@ == CategoryView::Favorites,
            r.category == Some(0usize),
            r.stations is None,
            r.settings == settings,
            !r.dirty,
            !r.help,
            r.help_scroll == 0,
            r.show_history,
            r.now is None,
            r.history@.len() == 0,
            !r.history_loading,
            r.history_error is None,
            r.loading,
            r.error is None,
            r.playback.state == PlayerState::Idle,
            r.playback.error is None,
    {
        App {
            catalog: None,
            categories: vec![Category::All, Category::Favorites],
            category: Some(0),
            stations: None,
            settings,
            dirty: false,
            help: false,
            help_scroll: 0,
            show_history: true,
            now: None,
            history: Vec::new(),
            history_loading: false,
            history_error: None,
            loading: true,
            error: None,
            playback: Snapshot::default(),
        }
    }

    pub fn current_category(&self) -> (r: &Category)
        requires
            self.wf(),
        ensures
            r@ == self.current(),
    {
        let i = match self.category {
            Some(i) => i,
            None => 0,
        };
        &self.categories[i]
    }

    fn matches_category(&self, station: &Station, category: &Category) -> (r: bool)
        ensures
            r == belongs(station@, category@, self.settings.favorites@),
    {
        match category {
            Category::All => true,
            Category::Favorites => self.settings.favorites.contains(&station.id),
            Category::Genre(id, _) => {
                let mut k: usize = 0;
                while k < station.genres.len()
                    invariant
                        k <= station.genres@.len(),
                        belongs(station@, category@, self.settings.favorites@) == has_genre(
                            station@,
                            *id,
                        ),
                        forall|j: int| 0 <= j < k ==> station.genres@[j].id != *id,
                    decreases station.genres@.len() - k,
                {
                    if station.genres[k].id == *id {
                        assert(station@.genres[k as int] == station.genres@[k as int]@);
                        assert(has_genre(station@, *id));
                        return true;
                    }
                    k += 1;
                }
                assert forall|j: int| 0 <= j < station@.genres.len() implies (
                #[trigger] station@.genres[j]).id != *id by {
                    assert(station@.genres[j] == station.genres@[j]@);
                }
                false
            },
        }
    }

    /// The stations of the current category.
    pub fn visible(&self) -> (r: Vec<&Station>)
        requires
            self.wf(),
        ensures
            r@.len() == self.shown().len(),
            forall|i: int| 0 <= i < r@.len() ==> *r@[i] == self.shown()[i],
    {
        match &self.catalog {
            Some(catalog) => {
                let category = self.current_category();
                let ghost all = catalog.stations@;
                let mut out: Vec<&Station> = Vec::new();
                let mut i: usize = 0;
                while i < catalog.stations.len()
                    invariant
                        self.wf(),
                        self.catalog == Some(*catalog),
                        all == catalog.stations@,
                        category@ == self.current(),
                        i <= all.len(),
                        out@.len() == filter_stations(
                            all.take(i as int),
                            self.current(),
                            self.settings.favorites@,
                        ).len(),
                        forall|k: int|
                            0 <= k < out@.len() ==> *out@[k] == filter_stations(
                                all.take(i as int),
                                self.current(),
                                self.settings.favorites@,
                            )[k],
                    decreases all.len() - i,
                {
                    assert(all.take(i + 1).drop_last() =~= all.take(i as int));
                    assert(all.take(i + 1).last() == all[i as int]);
                    let station = &catalog.stations[i];
                    if self.matches_category(station, category) {
                        out.push(station);
                    }
                    i += 1;
                }
                assert(all.take(i as int) =~= all);
                out
            },
            None => Vec::new(),
        }
    }

    pub fn selected_station(&self) -> (r: Option<&Station>)
        requires
            self.wf(),
        ensures
            match self.selected() {
                Some(s) => r matches Some(x) && *x == s,
                None => r is None,
            },
    {
        let visible = self.visible();
        match self.stations {
            Some(i) => {
                if i < visible.len() {
                    Some(visible[i])
                } else {
                    None
                }
            },
            None => None,
        }
    }

    fn reset_stations(&mut self)
        requires
            old(self).wf(),
        ensures
            *final(self) == (App { stations: old(self).reset_selection(), ..*old(self) }),
    {
        let empty = self.visible().len() == 0;
        self.stations = if empty { None } else { Some(0) };
    }

    /// Takes the history of a station; a history of another station than the
    /// one that plays is stale and dropped.
    pub fn set_history(&mut self, station_id: i64, history: Vec<Track>)
        ensures
            (old(self).now matches Some(n) && n.id == station_id) ==> *final(self) == (App {
                history,
                history_loading: false,
                history_error: None,
                ..*old(self)
            }),
            !(old(self).now matches Some(n) && n.id == station_id) ==> *final(self) == *old(self),
            old(self).consistent() ==> final(self).consistent(),
    {
        let current = match &self.now {
            Some(station) => station.id == station_id,
            None => false,
        };
        if !current {
            return;
        }
        self.history = history;
        self.history_loading = false;
        self.history_error = None;
    }
}


// ---------------------------------------------------------------------------
// Selection arithmetic.
// ---------------------------------------------------------------------------

/// `a + d`, held within `0 ..= usize::MAX` (`usize::saturating_add_signed`).
pub open spec fn saturating_add_signed(a: usize, d: isize) -> usize {
    let v = a + d;
    if v < 0 {
        0
    } else if v > usize::MAX {
        usize::MAX
    } else {
        v as usize
    }
}

pub open spec fn min_usize(a: usize, b: usize) -> usize {
    if a <= b {
        a
    } else {
        b
    }
}

/// The selection kept within `count` items.
pub open spec fn clamped(selection: Option<usize>, count: usize) -> Option<usize> {
    if count == 0 {
        None
    } else {
        Some(
            min_usize(
                match selection {
                    Some(i) => i,
                    None => 0,
                },
                (count - 1) as usize,
            ),
        )
    }
}

/// The selection moved by `delta` within `count` items.
pub open spec fn moved(selection: Option<usize>, count: usize, delta: isize) -> Option<usize> {
    if count == 0 {
        None
    } else {
        Some(
            min_usize(
                saturating_add_signed(
                    match selection {
                        Some(i) => i,
                        None => 0,
                    },
                    delta,
                ),
                (count - 1) as usize,
            ),
        )
    }
}

fn clamp_selection(state: &mut Option<usize>, count: usize)
    ensures
        *final(state) == clamped(*old(state), count),
{
    if count == 0 {
        *state = None;
    } else {
        let s = match *state {
            Some(i) => i,
            None => 0,
        };
        *state = Some(if s <= count - 1 { s } else { count - 1 });
    }
}

fn move_selection(state: &mut Option<usize>, count: usize, delta: isize)
    ensures
        *final(state) == moved(*old(state), count, delta),
{
    if count == 0 {
        *state = None;
        return;
    }
    let s = match *state {
        Some(i) => i,
        None => 0,
    };
    let v: i128 = s as i128 + delta as i128;
    let sat: usize = if v < 0 {
        0
    } else if v > usize::MAX as i128 {
        usize::MAX
    } else {
        v as usize
    };
    *state = Some(if sat <= count - 1 { sat } else { count - 1 });
}

/// `i` modulo `n`, in `0 .. n` (`rem_euclid`).
fn wrap_index(i: i128, n: usize) -> (r: usize)
    requires
        n > 0,
        i > i128::MIN,
    ensures
        r as int == (i as int) % (n as int),
{
    if i >= 0 {
        ((i as u128) % (n as u128)) as usize
    } else {
        let m = (0 - i) as u128;
        let w = m % (n as u128);
        proof {
            let q = (m as int) / (n as int);
            vstd::arithmetic::div_mod::lemma_fundamental_div_mod(m as int, n as int);
            assert(m as int == (n as int) * q + (w as int));
            assert((n as int) * q == q * (n as int)) by (nonlinear_arith);
            assert(i as int == (-q) * (n as int) - (w as int)) by (nonlinear_arith)
                requires
                    m as int == q * (n as int) + (w as int),
                    i as int == -(m as int),
            ;
            assert((-q) * (n as int) - (w as int) == (-q - 1) * (n as int) + ((n as int) - (w as int))) by (nonlinear_arith);
            if w == 0 {
                vstd::arithmetic::div_mod::lemma_fundamental_div_mod_converse(i as int, n as int, -q, 0);
            } else {
                vstd::arithmetic::div_mod::lemma_fundamental_div_mod_converse(
                    i as int,
                    n as int,
                    -q - 1,
                    n - w,
                );
            }
        }
        if w == 0 {
            0
        } else {
            (n as u128 - w) as usize
        }
    }
}


// ---------------------------------------------------------------------------
// Playing, browsing and switching categories.
// ---------------------------------------------------------------------------

/// `a1` and `r` are what playing the selected station of `a0` gives: nothing
/// without a selection; an error without a stream; else the station plays,
/// its history is awaited, and the caller is told to play its stream.
pub open spec fn plays_selected(a0: App, a1: App, r: Action) -> bool {
    match a0.selected() {
        None => a1 == a0 && r is Nothing,
        Some(st) => match api::stream_of(st@) {
            None => {
                &&& a1 == (App { error: a1.error, ..a0 })
                &&& a1.error matches Some(e) && e@ == "No stream available"@
                &&& r is Nothing
            },
            Some(url) => {
                &&& a1 == (App {
                    now: a1.now,
                    history: a1.history,
                    history_error: None,
                    history_loading: true,
                    error: None,
                    playback: a1.playback,
                    ..a0
                })
                &&& a1.now matches Some(n) && n@ == st@
                &&& a1.history@.len() == 0
                &&& a1.playback.state == PlayerState::Buffering
                &&& a1.playback.error is None
                &&& r matches Action::Play(u) && u@ == url
            },
        },
    }
}

/// Whether playback is under way (playing, paused or loading) for a station.
pub open spec fn is_active(a: App) -> bool {
    a.now is Some && (a.playback.state == PlayerState::Playing || a.playback.state
        == PlayerState::Paused || a.playback.state == PlayerState::Buffering)
}

/// Play/pause: pause when a station is under way, else play the selected one.
pub open spec fn play_pauses(a0: App, a1: App, r: Action) -> bool {
    if is_active(a0) {
        a1 == a0 && r is Pause
    } else {
        plays_selected(a0, a1, r)
    }
}

/// The index of the first station of `vs` with id `id`, or -1.
pub open spec fn position_of(vs: Seq<Station>, id: i64) -> int
    decreases vs.len(),
{
    if vs.len() == 0 {
        -1
    } else {
        let r = position_of(vs.drop_last(), id);
        if r >= 0 {
            r
        } else if vs.last().id == id {
            vs.len() - 1
        } else {
            -1
        }
    }
}

/// Where a skip starts: one step from the playing station when it is shown,
/// else at the selected station (the first, without a selection; the last,
/// past the end).
pub open spec fn skip_start(a: App, direction: isize) -> int {
    let vs = a.shown();
    let n = vs.len() as int;
    let p = match a.now {
        Some(now) => position_of(vs, now.id),
        None => -1,
    };
    if p >= 0 {
        (p + direction) % n
    } else {
        min_usize(
            match a.stations {
                Some(i) => i,
                None => 0,
            },
            (n - 1) as usize,
        ) as int
    }
}

/// The first of the shown stations `start`, `start + direction`, ... (taken
/// round the list, from step `k` on) that has a stream.
pub open spec fn first_playable(vs: Seq<Station>, start: int, direction: int, k: int) -> Option<int>
    decreases vs.len() - k,
{
    if k < 0 || k >= vs.len() {
        None
    } else {
        let i = (start + direction * k) % (vs.len() as int);
        if api::stream_of(vs[i]@) is Some {
            Some(i)
        } else {
            first_playable(vs, start, direction, k + 1)
        }
    }
}

/// Skipping `direction` stations: nothing when no shown station has a stream,
/// else the first one with a stream from the start, selected and played.
pub open spec fn skips(a0: App, direction: isize, a1: App, r: Action) -> bool {
    if a0.shown().len() == 0 {
        a1 == a0 && r is Nothing
    } else {
        match first_playable(a0.shown(), skip_start(a0, direction), direction as int, 0) {
            None => a1 == a0 && r is Nothing,
            Some(i) => plays_selected(App { stations: Some(i as usize), ..a0 }, a1, r),
        }
    }
}

/// The state after moving to the category `direction` steps away (round the
/// list), with the first of its stations selected.
pub open spec fn changes_category(a0: App, direction: isize, a1: App) -> bool {
    let n = a0.categories@.len() as int;
    let mid = App { category: Some(((a0.category_index() + direction) % n) as usize), ..a0 };
    a1 == (App { stations: mid.reset_selection(), ..mid })
}

impl App {
    fn play_selected(&mut self) -> (r: Action)
        requires
            old(self).wf(),
        ensures
            final(self).wf(),
            plays_selected(*old(self), *final(self), r),
    {
        let station = match self.selected_station() {
            Some(s) => s.clone(),
            None => {
                return Action::Nothing;
            },
        };
        let url = match station.stream_url() {
            Some(u) => u.to_owned(),
            None => {
                self.error = Some("No stream available".to_owned());
                return Action::Nothing;
            },
        };
        self.now = Some(station);
        self.history.clear();
        self.history_error = None;
        self.history_loading = true;
        self.error = None;
        self.playback = Snapshot::buffering();
        Action::Play(url)
    }

    pub fn play_pause(&mut self) -> (r: Action)
        requires
            old(self).wf(),
        ensures
            final(self).wf(),
            play_pauses(*old(self), *final(self), r),
            old(self).consistent() ==> final(self).consistent(),
    {
        let ghost a0 = *self;
        let r = self.toggle_playback();
        proof {
            if a0.consistent() {
                lemma_play_pauses_consistent(a0, *self, r);
            }
        }
        r
    }

    fn toggle_playback(&mut self) -> (r: Action)
        requires
            old(self).wf(),
        ensures
            final(self).wf(),
            play_pauses(*old(self), *final(self), r),
    {
        let active = self.now.is_some() && (self.playback.state == PlayerState::Playing
            || self.playback.state == PlayerState::Paused || self.playback.state
            == PlayerState::Buffering);
        if active {
            Action::Pause
        } else {
            self.play_selected()
        }
    }

    fn change_category(&mut self, direction: isize)
        requires
            old(self).wf(),
        ensures
            final(self).wf(),
            changes_category(*old(self), direction, *final(self)),
    {
        let current = match self.category {
            Some(i) => i,
            None => 0,
        };
        let index = wrap_index(current as i128 + direction as i128, self.categories.len());
        self.category = Some(index);
        self.reset_stations();
    }

    fn navigate(&mut self, delta: isize)
        requires
            old(self).wf(),
        ensures
            *final(self) == (App {
                stations: moved(old(self).stations, old(self).shown().len() as usize, delta),
                ..*old(self)
            }),
    {
        let count = self.visible().len();
        move_selection(&mut self.stations, count, delta);
    }

    /// Plays the station `direction` steps from the playing one (or from the
    /// selected one), round the shown list, skipping stations without a stream.
    pub fn skip_station(&mut self, direction: isize) -> (r: Action)
        requires
            old(self).wf(),
        ensures
            final(self).wf(),
            skips(*old(self), direction, *final(self), r),
            old(self).consistent() ==> final(self).consistent(),
    {
        let ghost a0 = *self;
        let r = self.skip(direction);
        proof {
            if a0.consistent() {
                lemma_skips_consistent(a0, direction, *self, r);
            }
        }
        r
    }

    fn skip(&mut self, direction: isize) -> (r: Action)
        requires
            old(self).wf(),
        ensures
            final(self).wf(),
            skips(*old(self), direction, *final(self), r),
    {
        let ghost vs = self.shown();
        let visible = self.visible();
        let n = visible.len();
        if n == 0 {
            return Action::Nothing;
        }
        let current = match &self.now {
            Some(now) => position_in(&visible, now.id, Ghost(vs)),
            None => None,
        };
        let start: usize = match current {
            Some(i) => wrap_index(i as i128 + direction as i128, n),
            None => {
                let s = match self.stations {
                    Some(i) => i,
                    None => 0,
                };
                if s <= n - 1 {
                    s
                } else {
                    n - 1
                }
            },
        };
        assert(start == skip_start(*self, direction));
        let target = first_with_stream(&visible, start, direction, Ghost(vs));
        match target {
            Some(index) => {
                self.stations = Some(index);
                self.play_selected()
            },
            None => Action::Nothing,
        }
    }
}

/// The index of the first of the shown stations with id `id`.
fn position_in(visible: &Vec<&Station>, id: i64, Ghost(vs): Ghost<Seq<Station>>) -> (r: Option<usize>)
    requires
        visible@.len() == vs.len(),
        forall|k: int| 0 <= k < vs.len() ==> *visible@[k] == vs[k],
    ensures
        match r {
            Some(i) => position_of(vs, id) == i && i < vs.len(),
            None => position_of(vs, id) == -1,
        },
{
    let mut i: usize = 0;
    while i < visible.len()
        invariant
            visible@.len() == vs.len(),
            forall|k: int| 0 <= k < vs.len() ==> *visible@[k] == vs[k],
            i <= vs.len(),
            forall|k: int| 0 <= k < i ==> vs[k].id != id,
        decreases vs.len() - i,
    {
        if visible[i].id == id {
            proof {
                lemma_position_of(vs, id, i as int);
            }
            return Some(i);
        }
        i += 1;
    }
    proof {
        lemma_position_of_absent(vs, id);
    }
    None
}

/// The first of the shown stations `start`, `start + direction`, ... (round the
/// list) that has a stream.
fn first_with_stream(visible: &Vec<&Station>, start: usize, direction: isize, Ghost(vs): Ghost<Seq<Station>>) -> (r: Option<usize>)
    requires
        visible@.len() == vs.len(),
        vs.len() > 0,
        start < vs.len(),
        forall|k: int| 0 <= k < vs.len() ==> *visible@[k] == vs[k],
    ensures
        match first_playable(vs, start as int, direction as int, 0) {
            Some(i) => r == Some(i as usize) && 0 <= i < vs.len(),
            None => r is None,
        },
{
    let n = visible.len();
    let d = wrap_index(direction as i128, n);
    let mut idx = start;
    let mut step: usize = 0;
    proof {
        assert((start as int) % (n as int) == start as int) by (nonlinear_arith)
            requires
                0 <= start < n,
        ;
    }
    while step < n
        invariant
            n == vs.len(),
            n > 0,
            visible@.len() == vs.len(),
            forall|k: int| 0 <= k < vs.len() ==> *visible@[k] == vs[k],
            step <= n,
            d == (direction as int) % (n as int),
            idx < n,
            idx as int == (start + (direction as int) * step) % (n as int),
            first_playable(vs, start as int, direction as int, step as int) == first_playable(
                vs,
                start as int,
                direction as int,
                0,
            ),
        decreases n - step,
    {
        if visible[idx].stream_url().is_some() {
            return Some(idx);
        }
        proof {
            let x = start + (direction as int) * step;
            vstd::arithmetic::div_mod::lemma_add_mod_noop(x, direction as int, n as int);
            assert(x + direction as int == start + (direction as int) * (step + 1)) by (nonlinear_arith)
                requires
                    x == start + (direction as int) * step,
            ;
        }
        idx = ((idx as u128 + d as u128) % (n as u128)) as usize;
        step += 1;
    }
    None
}

proof fn lemma_position_of(vs: Seq<Station>, id: i64, i: int)
    requires
        0 <= i < vs.len(),
        vs[i].id == id,
        forall|k: int| 0 <= k < i ==> vs[k].id != id,
    ensures
        position_of(vs, id) == i,
    decreases vs.len(),
{
    if i < vs.len() - 1 {
        lemma_position_of(vs.drop_last(), id, i);
    } else {
        lemma_position_of_absent(vs.drop_last(), id);
    }
}

proof fn lemma_position_of_absent(vs: Seq<Station>, id: i64)
    requires
        forall|k: int| 0 <= k < vs.len() ==> vs[k].id != id,
    ensures
        position_of(vs, id) == -1,
    decreases vs.len(),
{
    if vs.len() > 0 {
        lemma_position_of_absent(vs.drop_last(), id);
    }
}


// ---------------------------------------------------------------------------
// The categories of a catalogue.
// ---------------------------------------------------------------------------

pub open spec fn categories_view(v: Seq<Category>) -> Seq<CategoryView> {
    v.map_values(|c: Category| c@)
}

/// The genres of the stations, one station after another.
pub open spec fn station_genre_list(st: Seq<StationView>) -> Seq<GenreView>
    decreases st.len(),
{
    if st.len() == 0 {
        Seq::empty()
    } else {
        station_genre_list(st.drop_last()) + st.last().genres
    }
}

/// The genres that may become categories: the catalogue's genre list, then
/// the genres of each station (which the list may omit).
pub open spec fn genre_candidates(c: CatalogView) -> Seq<GenreView> {
    c.genres + station_genre_list(c.stations)
}

/// Whether some station has the genre `id`.
pub open spec fn genre_used(c: CatalogView, id: i64) -> bool {
    exists|i: int| 0 <= i < c.stations.len() && has_genre(#[trigger] c.stations[i], id)
}

/// Whether a genre category with id `id` is among `cats`.
pub open spec fn has_genre_category(cats: Seq<CategoryView>, id: i64) -> bool {
    exists|i: int| 0 <= i < cats.len() && (#[trigger] cats[i] matches CategoryView::Genre(g, _) && g == id)
}

/// All, Favorites, then one category per genre id of `cands` that some station
/// has, named as where it first appears.
pub open spec fn build_categories(c: CatalogView, cands: Seq<GenreView>) -> Seq<CategoryView>
    decreases cands.len(),
{
    if cands.len() == 0 {
        seq![CategoryView::All, CategoryView::Favorites]
    } else {
        let prev = build_categories(c, cands.drop_last());
        let g = cands.last();
        if !has_genre_category(prev, g.id) && genre_used(c, g.id) {
            prev.push(CategoryView::Genre(g.id, g.name))
        } else {
            prev
        }
    }
}

/// The categories of a catalogue.
pub open spec fn catalog_categories(c: CatalogView) -> Seq<CategoryView> {
    build_categories(c, genre_candidates(c))
}

/// The index of the first of `cats` equal to `c`, or -1.
pub open spec fn find_category(cats: Seq<CategoryView>, c: CategoryView) -> int
    decreases cats.len(),
{
    if cats.len() == 0 {
        -1
    } else {
        let r = find_category(cats.drop_last(), c);
        if r >= 0 {
            r
        } else if cats.last() == c {
            cats.len() - 1
        } else {
            -1
        }
    }
}

fn station_has_genre(station: &Station, id: i64) -> (r: bool)
    ensures
        r == has_genre(station@, id),
{
    let mut k: usize = 0;
    while k < station.genres.len()
        invariant
            k <= station.genres@.len(),
            forall|j: int| 0 <= j < k ==> station.genres@[j].id != id,
        decreases station.genres@.len() - k,
    {
        if station.genres[k].id == id {
            assert(station@.genres[k as int] == station.genres@[k as int]@);
            return true;
        }
        k += 1;
    }
    assert forall|j: int| 0 <= j < station@.genres.len() implies (#[trigger] station@.genres[j]).id
        != id by {
        assert(station@.genres[j] == station.genres@[j]@);
    }
    false
}

fn catalog_uses_genre(catalog: &Catalog, id: i64) -> (r: bool)
    ensures
        r == genre_used(catalog@, id),
{
    let mut i: usize = 0;
    while i < catalog.stations.len()
        invariant
            i <= catalog.stations@.len(),
            forall|j: int| 0 <= j < i ==> !has_genre(#[trigger] catalog@.stations[j], id),
        decreases catalog.stations@.len() - i,
    {
        assert(catalog@.stations[i as int] == catalog.stations@[i as int]@);
        if station_has_genre(&catalog.stations[i], id) {
            return true;
        }
        i += 1;
    }
    false
}

fn has_genre_category_exec(cats: &Vec<Category>, id: i64) -> (r: bool)
    ensures
        r == has_genre_category(categories_view(cats@), id),
{
    let mut i: usize = 0;
    while i < cats.len()
        invariant
            i <= cats@.len(),
            forall|j: int|
                0 <= j < i ==> !(#[trigger] categories_view(cats@)[j] matches CategoryView::Genre(
                    g,
                    _,
                ) && g == id),
        decreases cats@.len() - i,
    {
        assert(categories_view(cats@)[i as int] == cats@[i as int]@);
        match &cats[i] {
            Category::Genre(g, _) => {
                if *g == id {
                    return true;
                }
            },
            _ => {},
        }
        i += 1;
    }
    false
}

/// Adds a category for genre `g` when none has its id and some station has it.
fn add_candidate(cats: &mut Vec<Category>, catalog: &Catalog, g: &crate::api::Genre)
    ensures
        categories_view(final(cats)@) == (if !has_genre_category(categories_view(old(cats)@), g.id)
            && genre_used(catalog@, g.id) {
            categories_view(old(cats)@).push(CategoryView::Genre(g.id, g.name@))
        } else {
            categories_view(old(cats)@)
        }),
{
    if !has_genre_category_exec(cats, g.id) && catalog_uses_genre(catalog, g.id) {
        let ghost before = cats@;
        cats.push(Category::Genre(g.id, g.name.clone()));
        assert(categories_view(cats@) =~= categories_view(before).push(CategoryView::Genre(g.id, g.name@)));
    }
}

fn find_category_exec(cats: &Vec<Category>, c: &Category) -> (r: Option<usize>)
    ensures
        match r {
            Some(i) => find_category(categories_view(cats@), c@) == i,
            None => find_category(categories_view(cats@), c@) == -1,
        },
{
    let ghost v = categories_view(cats@);
    let mut i: usize = 0;
    while i < cats.len()
        invariant
            v == categories_view(cats@),
            i <= cats@.len(),
            forall|j: int| 0 <= j < i ==> v[j] != c@,
        decreases cats@.len() - i,
    {
        if cats[i] == *c {
            proof {
                lemma_find_category(v, c@, i as int);
            }
            return Some(i);
        }
        i += 1;
    }
    proof {
        lemma_find_category_absent(v, c@);
    }
    None
}

proof fn lemma_find_category(cats: Seq<CategoryView>, c: CategoryView, i: int)
    requires
        0 <= i < cats.len(),
        cats[i] == c,
        forall|k: int| 0 <= k < i ==> cats[k] != c,
    ensures
        find_category(cats, c) == i,
    decreases cats.len(),
{
    if i < cats.len() - 1 {
        lemma_find_category(cats.drop_last(), c, i);
    } else {
        lemma_find_category_absent(cats.drop_last(), c);
    }
}

proof fn lemma_find_category_absent(cats: Seq<CategoryView>, c: CategoryView)
    requires
        forall|k: int| 0 <= k < cats.len() ==> cats[k] != c,
    ensures
        find_category(cats, c) == -1,
    decreases cats.len(),
{
    if cats.len() > 0 {
        lemma_find_category_absent(cats.drop_last(), c);
    }
}

/// The categories of a catalogue, built in order.
fn categories_of(catalog: &Catalog) -> (r: Vec<Category>)
    ensures
        categories_view(r@) == catalog_categories(catalog@),
{
    let ghost c = catalog@;
    let ghost g0 = c.genres;
    let mut cats: Vec<Category> = vec![Category::All, Category::Favorites];
    assert(categories_view(cats@) =~= build_categories(c, g0.take(0)));
    let mut k: usize = 0;
    while k < catalog.genres.len()
        invariant
            c == catalog@,
            g0 == c.genres,
            k <= g0.len(),
            categories_view(cats@) == build_categories(c, g0.take(k as int)),
        decreases g0.len() - k,
    {
        assert(g0.take(k + 1).drop_last() =~= g0.take(k as int));
        assert(g0.take(k + 1).last() == catalog.genres@[k as int]@);
        add_candidate(&mut cats, catalog, &catalog.genres[k]);
        k += 1;
    }
    assert(g0.take(k as int) =~= g0 + station_genre_list(c.stations.take(0)));
    let mut i: usize = 0;
    while i < catalog.stations.len()
        invariant
            c == catalog@,
            g0 == c.genres,
            i <= c.stations.len(),
            categories_view(cats@) == build_categories(c, g0 + station_genre_list(c.stations.take(i as int))),
        decreases c.stations.len() - i,
    {
        let station = &catalog.stations[i];
        let ghost prefix = g0 + station_genre_list(c.stations.take(i as int));
        let ghost sg = station@.genres;
        assert(c.stations[i as int] == station@);
        assert(prefix + sg.take(0) =~= prefix);
        let mut j: usize = 0;
        while j < station.genres.len()
            invariant
                c == catalog@,
                sg == station@.genres,
                j <= sg.len(),
                categories_view(cats@) == build_categories(c, prefix + sg.take(j as int)),
            decreases sg.len() - j,
        {
            assert((prefix + sg.take(j + 1)).drop_last() =~= prefix + sg.take(j as int));
            assert((prefix + sg.take(j + 1)).last() == station.genres@[j as int]@);
            add_candidate(&mut cats, catalog, &station.genres[j]);
            j += 1;
        }
        assert(c.stations.take(i + 1).drop_last() =~= c.stations.take(i as int));
        assert(sg.take(j as int) =~= sg);
        assert(prefix + sg =~= g0 + station_genre_list(c.stations.take(i + 1)));
        i += 1;
    }
    assert(c.stations.take(i as int) =~= c.stations);
    cats
}

impl App {
    /// Takes a new catalogue: rebuilds the categories, keeps the current one
    /// selected if it still exists (else the first), and selects the first
    /// station of the current category.
    pub fn set_catalog(&mut self, catalog: Catalog)
        requires
            old(self).wf(),
        ensures
            final(self).wf(),
            final(self).consistent(),
            categories_view(final(self).categories@) == catalog_categories(catalog@),
            final(self).category == Some(
                (if find_category(catalog_categories(catalog@), old(self).current()) >= 0 {
                    find_category(catalog_categories(catalog@), old(self).current())
                } else {
                    0
                }) as usize,
            ),
            final(self).catalog == Some(catalog),
            *final(self) == (App {
                catalog: final(self).catalog,
                categories: final(self).categories,
                category: final(self).category,
                stations: final(self).reset_selection(),
                loading: false,
                error: None,
                ..*old(self)
            }),
    {
        let previous = self.current_category().clone();
        let categories = categories_of(&catalog);
        let index = match find_category_exec(&categories, &previous) {
            Some(i) => i,
            None => 0,
        };
        proof {
            assert(categories_view(categories@).len() == categories@.len());
            assert(categories@.len() >= 2) by {
                lemma_build_categories_len(catalog@, genre_candidates(catalog@));
            }
            if find_category(categories_view(categories@), previous@) >= 0 {
                lemma_find_category_bound(categories_view(categories@), previous@);
            }
        }
        self.categories = categories;
        self.category = Some(index);
        self.catalog = Some(catalog);
        self.loading = false;
        self.error = None;
        self.reset_stations();
        proof {
            lemma_build_categories_len(catalog@, genre_candidates(catalog@));
            assert(categories_view(self.categories@)[0] == self.categories@[0]@);
            assert(categories_view(self.categories@)[1] == self.categories@[1]@);
            shown_fits(*self);
        }
    }
}

proof fn lemma_build_categories_len(c: CatalogView, cands: Seq<GenreView>)
    ensures
        build_categories(c, cands).len() >= 2,
        build_categories(c, cands)[0] == CategoryView::All,
        build_categories(c, cands)[1] == CategoryView::Favorites,
    decreases cands.len(),
{
    if cands.len() > 0 {
        lemma_build_categories_len(c, cands.drop_last());
    }
}

proof fn lemma_find_category_bound(cats: Seq<CategoryView>, c: CategoryView)
    ensures
        find_category(cats, c) < cats.len(),
    decreases cats.len(),
{
    if cats.len() > 0 {
        lemma_find_category_bound(cats.drop_last(), c);
    }
}


// ---------------------------------------------------------------------------
// Keys.
// ---------------------------------------------------------------------------

/// The transport keys: previous (-1), next (1) and play/pause (0).
pub open spec fn transport(code: KeyCode) -> Option<int> {
    match code {
        KeyCode::F(7) => Some(-1),
        KeyCode::Media(MediaKeyCode::TrackPrevious) => Some(-1),
        KeyCode::F(9) => Some(1),
        KeyCode::Media(MediaKeyCode::TrackNext) => Some(1),
        KeyCode::F(8) => Some(0),
        KeyCode::Media(MediaKeyCode::PlayPause) => Some(0),
        _ => None,
    }
}

/// The help text's scroll offset after a key: down by one up to 14, up by one down to 0.
pub open spec fn help_scrolled(scroll: u16, code: KeyCode) -> u16 {
    if code == KeyCode::Down || code == KeyCode::Char('j') {
        if scroll >= 14 {
            14
        } else {
            (scroll + 1) as u16
        }
    } else if code == KeyCode::Up || code == KeyCode::Char('k') {
        if scroll == 0 {
            0
        } else {
            (scroll - 1) as u16
        }
    } else {
        scroll
    }
}

/// A key while the help is open: it scrolls, Esc and `?` close it, `q` quits.
pub open spec fn help_key_result(a0: App, code: KeyCode, a1: App, r: Action) -> bool {
    let closes = code == KeyCode::Esc || code == KeyCode::Char('?');
    &&& a1 == (App { help_scroll: help_scrolled(a0.help_scroll, code), help: a0.help && !closes, ..a0 })
    &&& if !closes && code == KeyCode::Char('q') {
        r is Quit
    } else {
        r is Nothing
    }
}

/// How far the selection keys move it.
pub open spec fn selection_step(code: KeyCode) -> Option<isize> {
    if code == KeyCode::Up || code == KeyCode::Char('k') {
        Some(-1isize)
    } else if code == KeyCode::Down || code == KeyCode::Char('j') {
        Some(1isize)
    } else if code == KeyCode::PageUp {
        Some(-10isize)
    } else if code == KeyCode::PageDown {
        Some(10isize)
    } else if code == KeyCode::Home {
        Some(isize::MIN)
    } else if code == KeyCode::End {
        Some(isize::MAX)
    } else {
        None
    }
}

/// The volume after a volume key: 5 less (not below 0) for `-`, 5 more (not
/// above 100) otherwise.
pub open spec fn volume_after(v: u8, code: KeyCode) -> u8 {
    if code == KeyCode::Char('-') {
        if v < 5 {
            0
        } else {
            (v - 5) as u8
        }
    } else if v + 5 > 100 {
        100
    } else {
        (v + 5) as u8
    }
}

/// `f`: the selected station joins or leaves the favourites, and the
/// selection is kept within the stations that remain shown.
pub open spec fn toggles_favorite(a0: App, a1: App) -> bool {
    match a0.selected() {
        None => a1 == a0,
        Some(st) => {
            &&& a1.settings.favorites@ == settings::toggled(a0.settings.favorites@, st.id)
            &&& a1.settings.volume == a0.settings.volume
            &&& a1 == (App {
                settings: a1.settings,
                dirty: true,
                stations: clamped(a0.stations, a1.shown().len() as usize),
                ..a0
            })
        },
    }
}

/// `s`: nothing plays any more, and its history is gone.
pub open spec fn stops(a0: App, a1: App) -> bool {
    &&& a1 == (App {
        now: None,
        history: a1.history,
        history_error: None,
        history_loading: false,
        playback: a1.playback,
        ..a0
    })
    &&& a1.history@.len() == 0
    &&& a1.playback.state == PlayerState::Idle
    &&& a1.playback.error is None
}

/// A key while the help is closed.
pub open spec fn browse_key_result(a0: App, key: KeyEvent, a1: App, r: Action) -> bool {
    let code = key.code;
    if code == KeyCode::Char('q') {
        a1 == a0 && r is Quit
    } else if code == KeyCode::Char('?') {
        a1 == (App { help: true, help_scroll: 0, ..a0 }) && r is Nothing
    } else if code == KeyCode::Esc {
        a1 == (App { error: None, ..a0 }) && r is Nothing
    } else if code == KeyCode::Tab {
        changes_category(a0, if key.modifiers.shift { -1isize } else { 1isize }, a1) && r is Nothing
    } else if code == KeyCode::BackTab {
        changes_category(a0, -1isize, a1) && r is Nothing
    } else if selection_step(code) is Some {
        a1 == (App {
            stations: moved(a0.stations, a0.shown().len() as usize, selection_step(code)->0),
            ..a0
        }) && r is Nothing
    } else if code == KeyCode::Char('i') {
        a1 == (App { show_history: !a0.show_history, ..a0 }) && r is Nothing
    } else if code == KeyCode::Char('f') {
        toggles_favorite(a0, a1) && r is Nothing
    } else if code == KeyCode::Char('-') || code == KeyCode::Char('=') || code == KeyCode::Char('+') {
        let v = volume_after(a0.settings.volume, code);
        &&& a1 == (App {
            settings: Settings { favorites: a0.settings.favorites, volume: v },
            dirty: true,
            ..a0
        })
        &&& r matches Action::Volume(x) && x == v
    } else if code == KeyCode::Char('r') {
        a1 == a0 && r is Refresh
    } else if code == KeyCode::Char('s') {
        stops(a0, a1) && r is Stop
    } else if code == KeyCode::Char(' ') {
        play_pauses(a0, a1, r)
    } else if code == KeyCode::Enter {
        plays_selected(a0, a1, r)
    } else {
        a1 == a0 && r is Nothing
    }
}

/// What a key does. Ctrl+C quits. Transport keys act on key press only, even
/// while the help is open: play/pause, or skip to the previous or next station
/// with a stream. The media Play key plays unless playing, the media Pause key
/// pauses when playing. Other keys go to the help while it is open.
pub open spec fn key_result(a0: App, key: KeyEvent, a1: App, r: Action) -> bool {
    let code = key.code;
    if code == KeyCode::Char('c') && key.modifiers.control {
        a1 == a0 && r is Quit
    } else if transport(code) is Some {
        if key.kind != KeyEventKind::Press {
            a1 == a0 && r is Nothing
        } else if transport(code)->0 == 0 {
            play_pauses(a0, a1, r)
        } else {
            skips(a0, transport(code)->0 as isize, a1, r)
        }
    } else if code == KeyCode::Media(MediaKeyCode::Play) {
        if a0.playback.state == PlayerState::Playing {
            a1 == a0 && r is Nothing
        } else {
            play_pauses(a0, a1, r)
        }
    } else if code == KeyCode::Media(MediaKeyCode::Pause) {
        a1 == a0 && (if a0.playback.state == PlayerState::Playing {
            r is Pause
        } else {
            r is Nothing
        })
    } else if a0.help {
        help_key_result(a0, code, a1, r)
    } else {
        browse_key_result(a0, key, a1, r)
    }
}

impl App {
    fn help_key(&mut self, code: KeyCode) -> (r: Action)
        requires
            old(self).wf(),
        ensures
            final(self).wf(),
            help_key_result(*old(self), code, *final(self), r),
    {
        if code == KeyCode::Down || code == KeyCode::Char('j') {
            self.help_scroll = if self.help_scroll >= 14 { 14 } else { self.help_scroll + 1 };
        } else if code == KeyCode::Up || code == KeyCode::Char('k') {
            self.help_scroll = if self.help_scroll == 0 { 0 } else { self.help_scroll - 1 };
        }
        if code == KeyCode::Esc || code == KeyCode::Char('?') {
            self.help = false;
        } else if code == KeyCode::Char('q') {
            return Action::Quit;
        }
        Action::Nothing
    }

    fn toggle_favorite(&mut self)
        requires
            old(self).wf(),
        ensures
            final(self).wf(),
            toggles_favorite(*old(self), *final(self)),
    {
        let id = match self.selected_station() {
            Some(station) => station.id,
            None => {
                return;
            },
        };
        let _ = self.settings.toggle_favorite(id);
        self.dirty = true;
        let count = self.visible().len();
        clamp_selection(&mut self.stations, count);
    }

    fn change_volume(&mut self, code: KeyCode) -> (r: u8)
        ensures
            r == volume_after(old(self).settings.volume, code),
            *final(self) == (App {
                settings: Settings { favorites: old(self).settings.favorites, volume: r },
                dirty: true,
                ..*old(self)
            }),
    {
        let v = self.settings.volume;
        self.settings.volume = if code == KeyCode::Char('-') {
            if v < 5 {
                0
            } else {
                v - 5
            }
        } else if v > 95 {
            100
        } else {
            v + 5
        };
        self.dirty = true;
        self.settings.volume
    }

    fn stop(&mut self)
        ensures
            stops(*old(self), *final(self)),
    {
        self.now = None;
        self.history.clear();
        self.history_error = None;
        self.history_loading = false;
        self.playback = Snapshot::default();
    }

    fn browse_key(&mut self, key: KeyEvent) -> (r: Action)
        requires
            old(self).wf(),
        ensures
            final(self).wf(),
            browse_key_result(*old(self), key, *final(self), r),
    {
        let code = key.code;
        if code == KeyCode::Char('q') {
            return Action::Quit;
        } else if code == KeyCode::Char('?') {
            self.help = true;
            self.help_scroll = 0;
        } else if code == KeyCode::Esc {
            self.error = None;
        } else if code == KeyCode::Tab {
            self.change_category(if key.modifiers.shift { -1 } else { 1 });
        } else if code == KeyCode::BackTab {
            self.change_category(-1);
        } else if code == KeyCode::Up || code == KeyCode::Char('k') {
            self.navigate(-1);
        } else if code == KeyCode::Down || code == KeyCode::Char('j') {
            self.navigate(1);
        } else if code == KeyCode::PageUp {
            self.navigate(-10);
        } else if code == KeyCode::PageDown {
            self.navigate(10);
        } else if code == KeyCode::Home {
            self.navigate(isize::MIN);
        } else if code == KeyCode::End {
            self.navigate(isize::MAX);
        } else if code == KeyCode::Char('i') {
            self.show_history = !self.show_history;
        } else if code == KeyCode::Char('f') {
            self.toggle_favorite();
        } else if code == KeyCode::Char('-') || code == KeyCode::Char('=') || code == KeyCode::Char(
            '+',
        ) {
            let v = self.change_volume(code);
            return Action::Volume(v);
        } else if code == KeyCode::Char('r') {
            return Action::Refresh;
        } else if code == KeyCode::Char('s') {
            self.stop();
            return Action::Stop;
        } else if code == KeyCode::Char(' ') {
            return self.play_pause();
        } else if code == KeyCode::Enter {
            return self.play_selected();
        }
        Action::Nothing
    }

    /// Handles a key and says what the caller must do.
    pub fn key(&mut self, key: KeyEvent) -> (r: Action)
        requires
            old(self).wf(),
        ensures
            final(self).wf(),
            key_result(*old(self), key, *final(self), r),
            old(self).consistent() ==> final(self).consistent(),
    {
        let ghost a0 = *self;
        let r = self.apply_key(key);
        proof {
            if a0.consistent() {
                lemma_key_consistent(a0, key, *self, r);
            }
        }
        r
    }

    fn apply_key(&mut self, key: KeyEvent) -> (r: Action)
        requires
            old(self).wf(),
        ensures
            final(self).wf(),
            key_result(*old(self), key, *final(self), r),
    {
        let code = key.code;
        if code == KeyCode::Char('c') && key.modifiers.control {
            return Action::Quit;
        }
        let transport: Option<isize> = if code == KeyCode::F(7) || code == KeyCode::Media(
            MediaKeyCode::TrackPrevious,
        ) {
            Some(-1)
        } else if code == KeyCode::F(9) || code == KeyCode::Media(MediaKeyCode::TrackNext) {
            Some(1)
        } else if code == KeyCode::F(8) || code == KeyCode::Media(MediaKeyCode::PlayPause) {
            Some(0)
        } else {
            None
        };
        if let Some(direction) = transport {
            if key.kind != KeyEventKind::Press {
                return Action::Nothing;
            }
            return if direction == 0 {
                self.play_pause()
            } else {
                self.skip_station(direction)
            };
        }
        if code == KeyCode::Media(MediaKeyCode::Play) {
            return if self.playback.state == PlayerState::Playing {
                Action::Nothing
            } else {
                self.play_pause()
            };
        }
        if code == KeyCode::Media(MediaKeyCode::Pause) {
            return if self.playback.state == PlayerState::Playing {
                Action::Pause
            } else {
                Action::Nothing
            };
        }
        if self.help {
            self.help_key(code)
        } else {
            self.browse_key(key)
        }
    }
}


// ---------------------------------------------------------------------------
// The state that the operations keep.
// ---------------------------------------------------------------------------

impl App {
    /// All and Favorites lead the categories, a category is selected, and a
    /// station is selected exactly when the current category shows one, and
    /// then one that it shows.
    pub open spec fn consistent(&self) -> bool {
        &&& self.wf()
        &&& self.categories@.len() >= 2
        &&& self.categories@[0]@ == CategoryView::All
        &&& self.categories@[1]@ == CategoryView::Favorites
        &&& self.category is Some
        &&& (self.stations is Some <==> self.shown().len() > 0)
        &&& (self.stations matches Some(i) ==> i < self.shown().len())
    }
}

pub proof fn lemma_filter_len(stations: Seq<Station>, c: CategoryView, favorites: Set<i64>)
    ensures
        filter_stations(stations, c, favorites).len() <= stations.len(),
    decreases stations.len(),
{
    if stations.len() > 0 {
        lemma_filter_len(stations.drop_last(), c, favorites);
    }
}

pub proof fn lemma_first_playable(vs: Seq<Station>, start: int, direction: int, k: int)
    ensures
        first_playable(vs, start, direction, k) matches Some(i) ==> 0 <= i < vs.len()
            && api::stream_of(vs[i]@) is Some,
    decreases vs.len() - k,
{
    if 0 <= k < vs.len() {
        let n = vs.len() as int;
        let i = (start + direction * k) % n;
        assert(0 <= i < n) by (nonlinear_arith)
            requires
                n > 0,
                i == (start + direction * k) % n,
        ;
        lemma_first_playable(vs, start, direction, k + 1);
    }
}

pub proof fn shown_fits(a: App)
    ensures
        a.shown().len() <= usize::MAX,
{
    match a.catalog {
        Some(c) => {
            assert(c.stations.len() == c.stations@.len());
            lemma_filter_len(c.stations@, a.current(), a.settings.favorites@);
        },
        None => {},
    }
}


pub proof fn lemma_plays_selected_consistent(a0: App, a1: App, r: Action)
    requires
        a0.consistent(),
        plays_selected(a0, a1, r),
    ensures
        a1.consistent(),
{
    assert(a1.shown() == a0.shown());
}

pub proof fn lemma_play_pauses_consistent(a0: App, a1: App, r: Action)
    requires
        a0.consistent(),
        play_pauses(a0, a1, r),
    ensures
        a1.consistent(),
{
    if !is_active(a0) {
        lemma_plays_selected_consistent(a0, a1, r);
    }
}

pub proof fn lemma_skips_consistent(a0: App, direction: isize, a1: App, r: Action)
    requires
        a0.consistent(),
        skips(a0, direction, a1, r),
    ensures
        a1.consistent(),
{
    let vs = a0.shown();
    shown_fits(a0);
    if vs.len() > 0 {
        let start = skip_start(a0, direction);
        lemma_first_playable(vs, start, direction as int, 0);
        match first_playable(vs, start, direction as int, 0) {
            Some(i) => {
                let mid = App { stations: Some(i as usize), ..a0 };
                assert(mid.shown() == vs);
                assert(mid.consistent());
                lemma_plays_selected_consistent(mid, a1, r);
            },
            None => {},
        }
    }
}

pub proof fn lemma_changes_category_consistent(a0: App, direction: isize, a1: App)
    requires
        a0.consistent(),
        changes_category(a0, direction, a1),
    ensures
        a1.consistent(),
{
    let n = a0.categories@.len() as int;
    assert(a0.categories.len() == n);
    let k = (a0.category_index() + direction) % n;
    assert(0 <= k < n) by (nonlinear_arith)
        requires
            n > 0,
            k == (a0.category_index() + direction) % n,
    ;
    let mid = App { category: Some(k as usize), ..a0 };
    shown_fits(mid);
    assert(a1.shown() == mid.shown());
}

pub proof fn lemma_toggles_favorite_consistent(a0: App, a1: App)
    requires
        a0.consistent(),
        toggles_favorite(a0, a1),
    ensures
        a1.consistent(),
{
    shown_fits(a1);
}

pub proof fn lemma_key_consistent(a0: App, key: KeyEvent, a1: App, r: Action)
    requires
        a0.consistent(),
        key_result(a0, key, a1, r),
    ensures
        a1.consistent(),
{
    shown_fits(a0);
    let code = key.code;
    if code == KeyCode::Char('c') && key.modifiers.control {
    } else if transport(code) is Some {
        if key.kind != KeyEventKind::Press {
        } else if transport(code)->0 == 0 {
            lemma_play_pauses_consistent(a0, a1, r);
        } else {
            lemma_skips_consistent(a0, transport(code)->0 as isize, a1, r);
        }
    } else if code == KeyCode::Media(MediaKeyCode::Play) {
        if a0.playback.state != PlayerState::Playing {
            lemma_play_pauses_consistent(a0, a1, r);
        }
    } else if code == KeyCode::Media(MediaKeyCode::Pause) {
    } else if a0.help {
        assert(a1.shown() == a0.shown());
    } else if code == KeyCode::Tab {
        lemma_changes_category_consistent(a0, if key.modifiers.shift { -1isize } else { 1isize }, a1);
    } else if code == KeyCode::BackTab {
        lemma_changes_category_consistent(a0, -1isize, a1);
    } else if selection_step(code) is Some {
        assert(a1.shown() == a0.shown());
    } else if code == KeyCode::Char('f') {
        lemma_toggles_favorite_consistent(a0, a1);
    } else if code == KeyCode::Char('s') {
        assert(a1.shown() == a0.shown());
    } else if code == KeyCode::Char(' ') {
        lemma_play_pauses_consistent(a0, a1, r);
    } else if code == KeyCode::Enter {
        lemma_plays_selected_consistent(a0, a1, r);
    } else {
        assert(a1.shown() == a0.shown());
    }
}

} // verus!
