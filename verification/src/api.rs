//! The Radio Record catalogue: stations, genres and tracks, and how they are
//! read from the API's JSON responses.
use vstd::prelude::*;

use crate::error::{Error, Fault, Response, Section};
use crate::json::{self, parse, Json, JsonValue};
use crate::text::{self, decimal};




verus! {

pub struct GenreView {
    pub id: i64,
    pub name: Seq<char>,
}

pub struct StationView {
    pub id: i64,
    pub prefix: Seq<char>,
    pub title: Seq<char>,
    pub tooltip: Seq<char>,
    pub stream_64: Seq<char>,
    pub stream_128: Seq<char>,
    pub stream_320: Seq<char>,
    pub stream_hls: Seq<char>,
    pub icon_fill: Seq<char>,
    pub genres: Seq<GenreView>,
}

pub struct TrackView {
    pub id: i64,
    pub artist: Seq<char>,
    pub song: Seq<char>,
    pub image100: Seq<char>,
    pub image200: Seq<char>,
    pub time_formatted: Seq<char>,
}

pub struct CatalogView {
    pub stations: Seq<StationView>,
    pub genres: Seq<GenreView>,
    pub tags: Seq<GenreView>,
}

/// A genre or tag of the catalogue.
#[derive(Debug)]
pub struct Genre {
    pub id: i64,
    pub name: String,
}

/// A radio station and its streams.
#[derive(Debug)]
pub struct Station {
    pub id: i64,
    pub prefix: String,
    pub title: String,
    pub tooltip: String,
    pub stream_64: String,
    pub stream_128: String,
    pub stream_320: String,
    pub stream_hls: String,
    pub icon_fill: String,
    pub genres: Vec<Genre>,
}

/// A track in a station's history.
#[derive(Debug)]
pub struct Track {
    pub id: i64,
    pub artist: String,
    pub song: String,
    pub image100: String,
    pub image200: String,
    pub time_formatted: String,
}

/// The stations, genres and tags that the API lists.
#[derive(Debug)]
pub struct Catalog {
    pub stations: Vec<Station>,
    pub genres: Vec<Genre>,
    pub tags: Vec<Genre>,
}

pub open spec fn genres_view(v: Seq<Genre>) -> Seq<GenreView> {
    v.map_values(|g: Genre| g@)
}

pub open spec fn stations_view(v: Seq<Station>) -> Seq<StationView> {
    v.map_values(|s: Station| s@)
}

pub open spec fn tracks_view(v: Seq<Track>) -> Seq<TrackView> {
    v.map_values(|t: Track| t@)
}

impl View for Genre {
    type V = GenreView;

    open spec fn view(&self) -> GenreView {
        GenreView { id: self.id, name: self.name@ }
    }
}

impl View for Station {
    type V = StationView;

    open spec fn view(&self) -> StationView {
        StationView {
            id: self.id,
            prefix: self.prefix@,
            title: self.title@,
            tooltip: self.tooltip@,
            stream_64: self.stream_64@,
            stream_128: self.stream_128@,
            stream_320: self.stream_320@,
            stream_hls: self.stream_hls@,
            icon_fill: self.icon_fill@,
            genres: genres_view(self.genres@),
        }
    }
}

impl View for Track {
    type V = TrackView;

    open spec fn view(&self) -> TrackView {
        TrackView {
            id: self.id,
            artist: self.artist@,
            song: self.song@,
            image100: self.image100@,
            image200: self.image200@,
            time_formatted: self.time_formatted@,
        }
    }
}

impl View for Catalog {
    type V = CatalogView;

    open spec fn view(&self) -> CatalogView {
        CatalogView {
            stations: stations_view(self.stations@),
            genres: genres_view(self.genres@),
            tags: genres_view(self.tags@),
        }
    }
}

impl Clone for Genre {
    fn clone(&self) -> (r: Self)
        ensures
            r == *self,
    {
        Genre { id: self.id, name: self.name.clone() }
    }
}

/// A copy of a list of genres.
pub fn copy_genres(v: &Vec<Genre>) -> (r: Vec<Genre>)
    ensures
        r@ == v@,
{
    let mut r: Vec<Genre> = Vec::new();
    let mut i: usize = 0;
    while i < v.len()
        invariant
            i <= v@.len(),
            r@ == v@.subrange(0, i as int),
        decreases v@.len() - i,
    {
        r.push(v[i].clone());
        i += 1;
        assert(r@ =~= v@.subrange(0, i as int));
    }
    assert(v@.subrange(0, v@.len() as int) =~= v@);
    r
}

impl Clone for Station {
    fn clone(&self) -> (r: Self)
        ensures
            r@ == self@,
    {
        Station {
            id: self.id,
            prefix: self.prefix.clone(),
            title: self.title.clone(),
            tooltip: self.tooltip.clone(),
            stream_64: self.stream_64.clone(),
            stream_128: self.stream_128.clone(),
            stream_320: self.stream_320.clone(),
            stream_hls: self.stream_hls.clone(),
            icon_fill: self.icon_fill.clone(),
            genres: copy_genres(&self.genres),
        }
    }
}

/// A copy of a list of stations.
fn copy_stations(v: &Vec<Station>) -> (r: Vec<Station>)
    ensures
        r@.len() == v@.len(),
        forall|k: int| 0 <= k < v@.len() ==> #[trigger] r@[k]@ == v@[k]@,
{
    let mut r: Vec<Station> = Vec::new();
    let mut i: usize = 0;
    while i < v.len()
        invariant
            i <= v@.len(),
            r@.len() == i,
            forall|k: int| 0 <= k < i ==> #[trigger] r@[k]@ == v@[k]@,
        decreases v@.len() - i,
    {
        r.push(v[i].clone());
        i += 1;
    }
    r
}

impl Clone for Catalog {
    fn clone(&self) -> (r: Self)
        ensures
            r@ == self@,
    {
        let stations = copy_stations(&self.stations);
        proof {
            assert(stations_view(stations@) =~= stations_view(self.stations@));
        }
        Catalog { stations, genres: copy_genres(&self.genres), tags: copy_genres(&self.tags) }
    }
}

impl Clone for Track {
    fn clone(&self) -> (r: Self)
        ensures
            r == *self,
    {
        Track {
            id: self.id,
            artist: self.artist.clone(),
            song: self.song.clone(),
            image100: self.image100.clone(),
            image200: self.image200.clone(),
            time_formatted: self.time_formatted.clone(),
        }
    }
}


// ---------------------------------------------------------------------------
// Reading records from JSON.
// ---------------------------------------------------------------------------

/// The text of member `k`, when it is a string.
pub open spec fn field_text(j: Json, k: Seq<char>) -> Option<Seq<char>> {
    match j.get(k) {
        Some(v) => v.text(),
        None => None,
    }
}

pub open spec fn required_text(j: Json, k: Seq<char>) -> Result<Seq<char>, Fault> {
    match field_text(j, k) {
        Some(t) => Ok(t),
        None => Err(Fault::MissingString(k)),
    }
}

/// The text of member `k`, or the empty text.
pub open spec fn optional_text(j: Json, k: Seq<char>) -> Seq<char> {
    match field_text(j, k) {
        Some(t) => t,
        None => Seq::empty(),
    }
}

pub open spec fn required_integer(j: Json, k: Seq<char>) -> Result<i64, Fault> {
    match j.get(k) {
        Some(v) => match v.integer() {
            Some(n) => Ok(n),
            None => Err(Fault::MissingInteger(k)),
        },
        None => Err(Fault::MissingInteger(k)),
    }
}

pub open spec fn genre_from(j: Json) -> Result<GenreView, Fault> {
    match required_integer(j, "id"@) {
        Err(e) => Err(e),
        Ok(id) => match required_text(j, "name"@) {
            Err(e) => Err(e),
            Ok(name) => Ok(GenreView { id, name }),
        },
    }
}

/// Every item read as a genre; the first failure in order, if any.
pub open spec fn genres_from(items: Seq<Json>) -> Result<Seq<GenreView>, Fault>
    decreases items.len(),
{
    if items.len() == 0 {
        Ok(Seq::empty())
    } else {
        match genres_from(items.drop_last()) {
            Err(e) => Err(e),
            Ok(r) => match genre_from(items.last()) {
                Ok(g) => Ok(r.push(g)),
                Err(e) => Err(e),
            },
        }
    }
}

/// The genres of a station: none when the member is missing or not a list.
pub open spec fn station_genres(j: Json) -> Result<Seq<GenreView>, Fault> {
    match j.get("genre"@) {
        Some(g) => match g.items() {
            Some(items) => genres_from(items),
            None => Ok(Seq::empty()),
        },
        None => Ok(Seq::empty()),
    }
}

pub open spec fn station_from(j: Json) -> Result<StationView, Fault> {
    match required_integer(j, "id"@) {
        Err(e) => Err(e),
        Ok(id) => match required_text(j, "prefix"@) {
            Err(e) => Err(e),
            Ok(prefix) => match required_text(j, "title"@) {
                Err(e) => Err(e),
                Ok(title) => match required_text(j, "tooltip"@) {
                    Err(e) => Err(e),
                    Ok(tooltip) => match station_genres(j) {
                        Err(e) => Err(e),
                        Ok(genres) => Ok(
                            StationView {
                                id,
                                prefix,
                                title,
                                tooltip,
                                stream_64: optional_text(j, "stream_64"@),
                                stream_128: optional_text(j, "stream_128"@),
                                stream_320: optional_text(j, "stream_320"@),
                                stream_hls: optional_text(j, "stream_hls"@),
                                icon_fill: optional_text(j, "icon_fill_colored"@),
                                genres,
                            },
                        ),
                    },
                },
            },
        },
    }
}

pub open spec fn stations_from(items: Seq<Json>) -> Result<Seq<StationView>, Fault>
    decreases items.len(),
{
    if items.len() == 0 {
        Ok(Seq::empty())
    } else {
        match stations_from(items.drop_last()) {
            Err(e) => Err(e),
            Ok(r) => match station_from(items.last()) {
                Ok(g) => Ok(r.push(g)),
                Err(e) => Err(e),
            },
        }
    }
}

pub open spec fn track_from(j: Json) -> Result<TrackView, Fault> {
    match required_integer(j, "id"@) {
        Err(e) => Err(e),
        Ok(id) => Ok(
            TrackView {
                id,
                artist: optional_text(j, "artist"@),
                song: optional_text(j, "song"@),
                image100: optional_text(j, "image100"@),
                image200: optional_text(j, "image200"@),
                time_formatted: optional_text(j, "time_formatted"@),
            },
        ),
    }
}

pub open spec fn tracks_from(items: Seq<Json>) -> Result<Seq<TrackView>, Fault>
    decreases items.len(),
{
    if items.len() == 0 {
        Ok(Seq::empty())
    } else {
        match tracks_from(items.drop_last()) {
            Err(e) => Err(e),
            Ok(r) => match track_from(items.last()) {
                Ok(g) => Ok(r.push(g)),
                Err(e) => Err(e),
            },
        }
    }
}

/// A list of genres (a genre or tag list of the catalogue).
pub open spec fn genre_list(j: Json) -> Result<Seq<GenreView>, Fault> {
    match j.items() {
        Some(items) => genres_from(items),
        None => Err(Fault::NotAList(Section::Genre)),
    }
}

pub open spec fn station_list(j: Json) -> Result<Seq<StationView>, Fault> {
    match j.items() {
        Some(items) => stations_from(items),
        None => Err(Fault::NotAList(Section::Stations)),
    }
}

pub open spec fn track_list(j: Json) -> Result<Seq<TrackView>, Fault> {
    match j.items() {
        Some(items) => tracks_from(items),
        None => Err(Fault::NotAList(Section::History)),
    }
}

/// The catalogue in a stations response.
pub open spec fn catalog_from(doc: Json) -> Result<CatalogView, Fault> {
    match doc.get("result"@) {
        None => Err(Fault::MissingResult(Response::Stations)),
        Some(r) => match r.get("stations"@) {
            None => Err(Fault::MissingList(Section::Stations)),
            Some(sv) => match station_list(sv) {
                Err(e) => Err(e),
                Ok(stations) => match r.get("genre"@) {
                    None => Err(Fault::MissingList(Section::Genre)),
                    Some(gv) => match genre_list(gv) {
                        Err(e) => Err(e),
                        Ok(genres) => match r.get("tags"@) {
                            None => Err(Fault::MissingList(Section::Tags)),
                            Some(tv) => match genre_list(tv) {
                                Err(e) => Err(e),
                                Ok(tags) => Ok(CatalogView { stations, genres, tags }),
                            },
                        },
                    },
                },
            },
        },
    }
}

/// The tracks in a history response.
pub open spec fn history_from(doc: Json) -> Result<Seq<TrackView>, Fault> {
    match doc.get("result"@) {
        None => Err(Fault::MissingResult(Response::History)),
        Some(r) => match r.get("history"@) {
            None => Err(Fault::MissingList(Section::History)),
            Some(h) => track_list(h),
        },
    }
}

proof fn lemma_genres_prefix(items: Seq<Json>, i: int)
    requires
        0 <= i <= items.len(),
        genres_from(items.take(i)) is Err,
    ensures
        genres_from(items) == genres_from(items.take(i)),
    decreases items.len() - i,
{
    if i < items.len() {
        assert(items.take(i + 1).drop_last() =~= items.take(i));
        lemma_genres_prefix(items, i + 1);
    } else {
        assert(items.take(i) =~= items);
    }
}

proof fn lemma_stations_prefix(items: Seq<Json>, i: int)
    requires
        0 <= i <= items.len(),
        stations_from(items.take(i)) is Err,
    ensures
        stations_from(items) == stations_from(items.take(i)),
    decreases items.len() - i,
{
    if i < items.len() {
        assert(items.take(i + 1).drop_last() =~= items.take(i));
        lemma_stations_prefix(items, i + 1);
    } else {
        assert(items.take(i) =~= items);
    }
}

proof fn lemma_tracks_prefix(items: Seq<Json>, i: int)
    requires
        0 <= i <= items.len(),
        tracks_from(items.take(i)) is Err,
    ensures
        tracks_from(items) == tracks_from(items.take(i)),
    decreases items.len() - i,
{
    if i < items.len() {
        assert(items.take(i + 1).drop_last() =~= items.take(i));
        lemma_tracks_prefix(items, i + 1);
    } else {
        assert(items.take(i) =~= items);
    }
}

fn required_string(value: &JsonValue, key: &str) -> (r: Result<String, Error>)
    ensures
        match required_text(value@, key@) {
            Ok(t) => r matches Ok(x) && x@ == t,
            Err(e) => r matches Err(x) && x@ == e,
        },
{
    match value.object_get(key) {
        Some(v) => match v.as_str() {
            Some(t) => Ok(t.to_owned()),
            None => Err(Error::MissingString(key.to_owned())),
        },
        None => Err(Error::MissingString(key.to_owned())),
    }
}

fn optional_string(value: &JsonValue, key: &str) -> (r: String)
    ensures
        r@ == optional_text(value@, key@),
{
    match value.object_get(key) {
        Some(v) => match v.as_str() {
            Some(t) => t.to_owned(),
            None => String::new(),
        },
        None => String::new(),
    }
}

fn required_i64(value: &JsonValue, key: &str) -> (r: Result<i64, Error>)
    ensures
        match required_integer(value@, key@) {
            Ok(n) => r == Ok::<i64, Error>(n),
            Err(e) => r matches Err(x) && x@ == e,
        },
{
    match value.object_get(key) {
        Some(v) => match v.as_i64() {
            Some(n) => Ok(n),
            None => Err(Error::MissingInteger(key.to_owned())),
        },
        None => Err(Error::MissingInteger(key.to_owned())),
    }
}

fn decode_genre(value: &JsonValue) -> (r: Result<Genre, Error>)
    ensures
        match genre_from(value@) {
            Ok(g) => r matches Ok(x) && x@ == g,
            Err(e) => r matches Err(x) && x@ == e,
        },
{
    let id = match required_i64(value, "id") {
        Ok(n) => n,
        Err(e) => {
            return Err(e);
        },
    };
    let name = match required_string(value, "name") {
        Ok(t) => t,
        Err(e) => {
            return Err(e);
        },
    };
    Ok(Genre { id, name })
}

/// Reads every item of `items` as a genre.
fn decode_genres(items: &[JsonValue]) -> (r: Result<Vec<Genre>, Error>)
    ensures
        match genres_from(json::json_list_view(items@)) {
            Ok(g) => r matches Ok(x) && genres_view(x@) == g,
            Err(e) => r matches Err(x) && x@ == e,
        },
{
    let ghost list = json::json_list_view(items@);
    proof {
        json::lemma_list_view(items@);
        assert(list.take(0) =~= Seq::<Json>::empty());
    }
    let mut out: Vec<Genre> = Vec::new();
    assert(genres_view(out@) =~= Seq::<GenreView>::empty());
    let mut i: usize = 0;
    while i < items.len()
        invariant
            list == json::json_list_view(items@),
            list.len() == items@.len(),
            forall|k: int| 0 <= k < items@.len() ==> #[trigger] list[k] == items@[k]@,
            i <= items@.len(),
            genres_from(list.take(i as int)) == Ok::<Seq<GenreView>, Fault>(genres_view(out@)),
        decreases items@.len() - i,
    {
        assert(list.take(i + 1).drop_last() =~= list.take(i as int));
        assert(list.take(i + 1).last() == items@[i as int]@);
        match decode_genre(&items[i]) {
            Ok(g) => {
                let ghost before = out@;
                out.push(g);
                assert(genres_view(out@) =~= genres_view(before).push(g@));
            },
            Err(e) => {
                proof {
                    lemma_genres_prefix(list, i + 1);
                }
                return Err(e);
            },
        }
        i += 1;
    }
    assert(list.take(i as int) =~= list);
    Ok(out)
}

fn decode_genre_list(value: &JsonValue) -> (r: Result<Vec<Genre>, Error>)
    ensures
        match genre_list(value@) {
            Ok(g) => r matches Ok(x) && genres_view(x@) == g,
            Err(e) => r matches Err(x) && x@ == e,
        },
{
    match value.as_array() {
        Some(items) => decode_genres(items),
        None => Err(Error::NotAList(Section::Genre)),
    }
}

fn decode_station(value: &JsonValue) -> (r: Result<Station, Error>)
    ensures
        match station_from(value@) {
            Ok(s) => r matches Ok(x) && x@ == s,
            Err(e) => r matches Err(x) && x@ == e,
        },
{
    let id = match required_i64(value, "id") {
        Ok(n) => n,
        Err(e) => {
            return Err(e);
        },
    };
    let prefix = match required_string(value, "prefix") {
        Ok(t) => t,
        Err(e) => {
            return Err(e);
        },
    };
    let title = match required_string(value, "title") {
        Ok(t) => t,
        Err(e) => {
            return Err(e);
        },
    };
    let tooltip = match required_string(value, "tooltip") {
        Ok(t) => t,
        Err(e) => {
            return Err(e);
        },
    };
    let stream_64 = optional_string(value, "stream_64");
    let stream_128 = optional_string(value, "stream_128");
    let stream_320 = optional_string(value, "stream_320");
    let stream_hls = optional_string(value, "stream_hls");
    let icon_fill = optional_string(value, "icon_fill_colored");
    let genres = match value.object_get("genre") {
        Some(g) => match g.as_array() {
            Some(items) => match decode_genres(items) {
                Ok(v) => v,
                Err(e) => {
                    return Err(e);
                },
            },
            None => Vec::new(),
        },
        None => Vec::new(),
    };
    proof {
        assert(genres_view(Seq::<Genre>::empty()) =~= Seq::<GenreView>::empty());
    }
    Ok(
        Station {
            id,
            prefix,
            title,
            tooltip,
            stream_64,
            stream_128,
            stream_320,
            stream_hls,
            icon_fill,
            genres,
        },
    )
}

fn decode_station_list(value: &JsonValue) -> (r: Result<Vec<Station>, Error>)
    ensures
        match station_list(value@) {
            Ok(g) => r matches Ok(x) && stations_view(x@) == g,
            Err(e) => r matches Err(x) && x@ == e,
        },
{
    let items = match value.as_array() {
        Some(items) => items,
        None => {
            return Err(Error::NotAList(Section::Stations));
        },
    };
    let ghost list = json::json_list_view(items@);
    proof {
        json::lemma_list_view(items@);
        assert(list.take(0) =~= Seq::<Json>::empty());
    }
    let mut out: Vec<Station> = Vec::new();
    assert(stations_view(out@) =~= Seq::<StationView>::empty());
    let mut i: usize = 0;
    while i < items.len()
        invariant
            list == json::json_list_view(items@),
            value@.items() == Some(list),
            list.len() == items@.len(),
            forall|k: int| 0 <= k < items@.len() ==> #[trigger] list[k] == items@[k]@,
            i <= items@.len(),
            stations_from(list.take(i as int)) == Ok::<Seq<StationView>, Fault>(stations_view(out@)),
        decreases items@.len() - i,
    {
        assert(list.take(i + 1).drop_last() =~= list.take(i as int));
        assert(list.take(i + 1).last() == items@[i as int]@);
        match decode_station(&items[i]) {
            Ok(g) => {
                let ghost before = out@;
                out.push(g);
                assert(stations_view(out@) =~= stations_view(before).push(g@));
            },
            Err(e) => {
                proof {
                    lemma_stations_prefix(list, i + 1);
                }
                return Err(e);
            },
        }
        i += 1;
    }
    assert(list.take(i as int) =~= list);
    Ok(out)
}

fn decode_track(value: &JsonValue) -> (r: Result<Track, Error>)
    ensures
        match track_from(value@) {
            Ok(t) => r matches Ok(x) && x@ == t,
            Err(e) => r matches Err(x) && x@ == e,
        },
{
    let id = match required_i64(value, "id") {
        Ok(n) => n,
        Err(e) => {
            return Err(e);
        },
    };
    Ok(
        Track {
            id,
            artist: optional_string(value, "artist"),
            song: optional_string(value, "song"),
            image100: optional_string(value, "image100"),
            image200: optional_string(value, "image200"),
            time_formatted: optional_string(value, "time_formatted"),
        },
    )
}

fn decode_track_list(value: &JsonValue) -> (r: Result<Vec<Track>, Error>)
    ensures
        match track_list(value@) {
            Ok(g) => r matches Ok(x) && tracks_view(x@) == g,
            Err(e) => r matches Err(x) && x@ == e,
        },
{
    let items = match value.as_array() {
        Some(items) => items,
        None => {
            return Err(Error::NotAList(Section::History));
        },
    };
    let ghost list = json::json_list_view(items@);
    proof {
        json::lemma_list_view(items@);
        assert(list.take(0) =~= Seq::<Json>::empty());
    }
    let mut out: Vec<Track> = Vec::new();
    assert(tracks_view(out@) =~= Seq::<TrackView>::empty());
    let mut i: usize = 0;
    while i < items.len()
        invariant
            list == json::json_list_view(items@),
            value@.items() == Some(list),
            list.len() == items@.len(),
            forall|k: int| 0 <= k < items@.len() ==> #[trigger] list[k] == items@[k]@,
            i <= items@.len(),
            tracks_from(list.take(i as int)) == Ok::<Seq<TrackView>, Fault>(tracks_view(out@)),
        decreases items@.len() - i,
    {
        assert(list.take(i + 1).drop_last() =~= list.take(i as int));
        assert(list.take(i + 1).last() == items@[i as int]@);
        match decode_track(&items[i]) {
            Ok(g) => {
                let ghost before = out@;
                out.push(g);
                assert(tracks_view(out@) =~= tracks_view(before).push(g@));
            },
            Err(e) => {
                proof {
                    lemma_tracks_prefix(list, i + 1);
                }
                return Err(e);
            },
        }
        i += 1;
    }
    assert(list.take(i as int) =~= list);
    Ok(out)
}

/// Reads the catalogue from a parsed stations response.
pub fn decode_catalog(value: &JsonValue) -> (r: Result<Catalog, Error>)
    ensures
        match catalog_from(value@) {
            Ok(c) => r matches Ok(x) && x@ == c,
            Err(e) => r matches Err(x) && x@ == e,
        },
{
    let result = match value.object_get("result") {
        Some(r) => r,
        None => {
            return Err(Error::MissingResult(Response::Stations));
        },
    };
    let stations = match result.object_get("stations") {
        Some(v) => match decode_station_list(v) {
            Ok(s) => s,
            Err(e) => {
                return Err(e);
            },
        },
        None => {
            return Err(Error::MissingList(Section::Stations));
        },
    };
    let genres = match result.object_get("genre") {
        Some(v) => match decode_genre_list(v) {
            Ok(s) => s,
            Err(e) => {
                return Err(e);
            },
        },
        None => {
            return Err(Error::MissingList(Section::Genre));
        },
    };
    let tags = match result.object_get("tags") {
        Some(v) => match decode_genre_list(v) {
            Ok(s) => s,
            Err(e) => {
                return Err(e);
            },
        },
        None => {
            return Err(Error::MissingList(Section::Tags));
        },
    };
    Ok(Catalog { stations, genres, tags })
}

/// Reads the tracks from a parsed history response.
pub fn decode_history(value: &JsonValue) -> (r: Result<Vec<Track>, Error>)
    ensures
        match history_from(value@) {
            Ok(t) => r matches Ok(x) && tracks_view(x@) == t,
            Err(e) => r matches Err(x) && x@ == e,
        },
{
    let result = match value.object_get("result") {
        Some(r) => r,
        None => {
            return Err(Error::MissingResult(Response::History));
        },
    };
    match result.object_get("history") {
        Some(v) => decode_track_list(v),
        None => Err(Error::MissingList(Section::History)),
    }
}


// ---------------------------------------------------------------------------
// Streams and the API client.
// ---------------------------------------------------------------------------

/// The stream a station plays: the first non-empty of the 320 kbit/s, HLS,
/// 128 kbit/s and 64 kbit/s streams.
pub open spec fn stream_of(s: StationView) -> Option<Seq<char>> {
    if s.stream_320.len() > 0 {
        Some(s.stream_320)
    } else if s.stream_hls.len() > 0 {
        Some(s.stream_hls)
    } else if s.stream_128.len() > 0 {
        Some(s.stream_128)
    } else if s.stream_64.len() > 0 {
        Some(s.stream_64)
    } else {
        None
    }
}

impl Station {
    pub fn stream_url(&self) -> (r: Option<&str>)
        ensures
            match stream_of(self@) {
                Some(u) => r matches Some(x) && x@ == u,
                None => r is None,
            },
    {
        if !self.stream_320.as_str().is_empty() {
            Some(self.stream_320.as_str())
        } else if !self.stream_hls.as_str().is_empty() {
            Some(self.stream_hls.as_str())
        } else if !self.stream_128.as_str().is_empty() {
            Some(self.stream_128.as_str())
        } else if !self.stream_64.as_str().is_empty() {
            Some(self.stream_64.as_str())
        } else {
            None
        }
    }
}

/// What a stations response holds.
pub open spec fn catalog_response(body: Seq<char>) -> Result<CatalogView, Fault> {
    match json::document(body) {
        Err(e) => Err(e),
        Ok(j) => catalog_from(j),
    }
}

/// What a history response holds.
pub open spec fn history_response(body: Seq<char>) -> Result<Seq<TrackView>, Fault> {
    match json::document(body) {
        Err(e) => Err(e),
        Ok(j) => history_from(j),
    }
}

/// The first `limit` tracks, or all of them when `limit` is 0.
pub open spec fn limit_tracks(t: Seq<TrackView>, limit: nat) -> Seq<TrackView> {
    if limit > 0 && t.len() > limit {
        t.take(limit as int)
    } else {
        t
    }
}

/// The Radio Record API at a base URL: where each request goes and what each
/// response body means. Fetching the bodies is left to the caller.
#[derive(Debug)]
pub struct Client {
    base_url: String,
}

impl Clone for Client {
    fn clone(&self) -> (r: Self)
        ensures
            r.base() == self.base(),
    {
        Client { base_url: self.base_url.clone() }
    }
}

impl Default for Client {
    /// A client with an empty base URL.
    fn default() -> (r: Self)
        ensures
            r.base() == Seq::<char>::empty(),
    {
        Client { base_url: String::new() }
    }
}

impl Client {
    pub closed spec fn base(&self) -> Seq<char> {
        self.base_url@
    }

    pub fn with_base_url(base_url: String) -> (r: Self)
        ensures
            r.base() == base_url@,
    {
        Client { base_url }
    }

    /// The URL of the stations request.
    pub fn catalog_url(&self) -> (r: String)
        ensures
            r@ == self.base() + "/stations/"@,
    {
        let url = self.base_url.clone();
        url.concat("/stations/")
    }

    /// The URL of the history request for a station.
    pub fn history_url(&self, station_id: i64) -> (r: String)
        ensures
            r@ == self.base() + "/station/history/?id="@ + text::decimal_text(station_id as int),
    {
        let url = self.base_url.clone();
        let url = url.concat("/station/history/?id=");
        let id = decimal(station_id);
        url.concat(id.as_str())
    }

    /// The catalogue in the body of a stations response.
    pub fn get_catalog(&self, body: &str) -> (r: Result<Catalog, Error>)
        ensures
            match catalog_response(body@) {
                Ok(c) => r matches Ok(x) && x@ == c,
                Err(e) => r matches Err(x) && x@ == e,
            },
    {
        match parse(body) {
            Ok(value) => decode_catalog(&value),
            Err(e) => Err(e),
        }
    }

    /// The stations in the body of a stations response.
    pub fn get_stations(&self, body: &str) -> (r: Result<Vec<Station>, Error>)
        ensures
            match catalog_response(body@) {
                Ok(c) => r matches Ok(x) && stations_view(x@) == c.stations,
                Err(e) => r matches Err(x) && x@ == e,
            },
    {
        match self.get_catalog(body) {
            Ok(catalog) => Ok(catalog.stations),
            Err(e) => Err(e),
        }
    }

    /// The most recent `limit` tracks (all when `limit` is 0) in the body of a
    /// history response.
    pub fn get_history(&self, body: &str, limit: usize) -> (r: Result<Vec<Track>, Error>)
        ensures
            match history_response(body@) {
                Ok(t) => r matches Ok(x) && tracks_view(x@) == limit_tracks(t, limit as nat),
                Err(e) => r matches Err(x) && x@ == e,
            },
    {
        let mut history = match parse(body) {
            Ok(value) => match decode_history(&value) {
                Ok(h) => h,
                Err(e) => {
                    return Err(e);
                },
            },
            Err(e) => {
                return Err(e);
            },
        };
        if limit > 0 && history.len() > limit {
            let ghost before = history@;
            history.truncate(limit);
            assert(tracks_view(history@) =~= tracks_view(before).take(limit as int));
        }
        Ok(history)
    }

    /// The track playing now: the first in the body of a history response.
    pub fn get_now_playing(&self, body: &str) -> (r: Result<Option<Track>, Error>)
        ensures
            match history_response(body@) {
                Ok(t) => r matches Ok(x) && (match x {
                    Some(track) => t.len() > 0 && track@ == t[0],
                    None => t.len() == 0,
                }),
                Err(e) => r matches Err(x) && x@ == e,
            },
    {
        let mut history = match self.get_history(body, 1) {
            Ok(h) => h,
            Err(e) => {
                return Err(e);
            },
        };
        let ghost t = history_response(body@)->Ok_0;
        assert(tracks_view(history@).len() == history@.len());
        if history.len() == 0 {
            Ok(None)
        } else {
            let ghost v = history@;
            assert(tracks_view(v)[0] == v[0]@);
            assert(limit_tracks(t, 1)[0] == t[0]);
            Ok(Some(history.swap_remove(0)))
        }
    }
}

} // verus!
