use radiome::api::{decode_catalog, decode_history, Client};
use radiome::error::{Error, Response, Section};
use radiome::json;

#[test]
fn parses_catalog_and_stream_url() {
    let sample = r##"
        {
          "result": {
            "stations": [
              {
                "id": 1,
                "prefix": "test",
                "title": "Test Station",
                "tooltip": "Test description",
                "stream_320": "https://example.com/stream.mp3",
                "stream_hls": "",
                "stream_128": "",
                "stream_64": "",
                "icon_fill_colored": "#ffffff",
                "genre": [{ "id": 2, "name": "HOUSE" }]
              }
            ],
            "genre": [{ "id": 2, "name": "HOUSE" }],
            "tags": []
          }
        }
        "##;

    let value = json::parse(sample).unwrap();
    let catalog = decode_catalog(&value).unwrap();
    assert_eq!(catalog.stations.len(), 1);
    assert_eq!(catalog.genres.len(), 1);
    assert_eq!(catalog.tags.len(), 0);
    assert_eq!(
        catalog.stations[0].stream_url(),
        Some("https://example.com/stream.mp3")
    );
}

#[test]
fn parses_history() {
    let sample = r#"
        {
          "result": {
            "history": [
              {
                "id": 123,
                "artist": "Test Artist",
                "song": "Test Song",
                "image100": "",
                "image200": "",
                "time_formatted": "12:34:56"
              }
            ]
          }
        }
        "#;

    let value = json::parse(sample).unwrap();
    let history = decode_history(&value).unwrap();
    assert_eq!(history.len(), 1);
    assert_eq!(history[0].artist, "Test Artist");
    assert_eq!(history[0].song, "Test Song");
}

fn station_json(extra: &str) -> String {
    format!(
        r#"{{"result": {{"stations": [{{"id": 5, "prefix": "p", "title": "T", "tooltip": "" {extra}}}], "genre": [], "tags": []}}}}"#
    )
}

#[test]
fn stream_priority_is_320_then_hls_then_128_then_64() {
    let client = Client::with_base_url("http://x".to_string());
    let body = station_json(r#", "stream_64": "a", "stream_128": "b", "stream_hls": "c""#);
    let stations = client.get_stations(&body).unwrap();
    assert_eq!(stations[0].stream_url(), Some("c"));
    let body = station_json(r#", "stream_64": "a", "stream_128": "b""#);
    let stations = client.get_stations(&body).unwrap();
    assert_eq!(stations[0].stream_url(), Some("b"));
    let body = station_json(r#", "stream_64": "a""#);
    assert_eq!(client.get_stations(&body).unwrap()[0].stream_url(), Some("a"));
    let body = station_json("");
    assert_eq!(client.get_stations(&body).unwrap()[0].stream_url(), None);
}

#[test]
fn missing_optional_fields_are_empty_and_genres_default_to_none() {
    let client = Client::with_base_url("http://x".to_string());
    let body = station_json(r#", "genre": "not a list""#);
    let stations = client.get_stations(&body).unwrap();
    assert_eq!(stations[0].id, 5);
    assert_eq!(stations[0].icon_fill, "");
    assert!(stations[0].genres.is_empty());
}

#[test]
fn each_decoding_error_names_what_is_missing() {
    let client = Client::with_base_url("http://x".to_string());
    assert!(matches!(
        client.get_catalog("{}"),
        Err(Error::MissingResult(Response::Stations))
    ));
    assert!(matches!(
        client.get_catalog(r#"{"result": {}}"#),
        Err(Error::MissingList(Section::Stations))
    ));
    assert!(matches!(
        client.get_catalog(r#"{"result": {"stations": {}}}"#),
        Err(Error::NotAList(Section::Stations))
    ));
    assert!(matches!(
        client.get_catalog(r#"{"result": {"stations": []}}"#),
        Err(Error::MissingList(Section::Genre))
    ));
    assert!(matches!(
        client.get_catalog(r#"{"result": {"stations": [], "genre": 1}}"#),
        Err(Error::NotAList(Section::Genre))
    ));
    assert!(matches!(
        client.get_catalog(r#"{"result": {"stations": [], "genre": []}}"#),
        Err(Error::MissingList(Section::Tags))
    ));
    assert!(matches!(
        client.get_catalog(r#"{"result": {"stations": [], "genre": [], "tags": null}}"#),
        Err(Error::NotAList(Section::Genre))
    ));
    match client.get_catalog(r#"{"result": {"stations": [{"id": 1}], "genre": [], "tags": []}}"#) {
        Err(Error::MissingString(key)) => assert_eq!(key, "prefix"),
        other => panic!("unexpected {other:?}"),
    }
    match client.get_catalog(r#"{"result": {"stations": [{"id": 1.5}], "genre": [], "tags": []}}"#) {
        Err(Error::MissingInteger(key)) => assert_eq!(key, "id"),
        other => panic!("unexpected {other:?}"),
    }
    assert!(matches!(
        client.get_history(r#"{"result": {}}"#, 0),
        Err(Error::MissingList(Section::History))
    ));
    assert!(matches!(
        client.get_history(r#"{"x": 1}"#, 0),
        Err(Error::MissingResult(Response::History))
    ));
    assert!(matches!(
        client.get_history(r#"{"result": {"history": "no"}}"#, 0),
        Err(Error::NotAList(Section::History))
    ));
    assert!(matches!(client.get_history("{", 0), Err(Error::Expected('"', None))));
}

#[test]
fn history_limit_keeps_the_most_recent_tracks() {
    let client = Client::with_base_url("http://x".to_string());
    let body = r#"{"result": {"history": [{"id": 1, "song": "a"}, {"id": 2}, {"id": 3}]}}"#;
    assert_eq!(client.get_history(body, 0).unwrap().len(), 3);
    assert_eq!(client.get_history(body, 5).unwrap().len(), 3);
    let two = client.get_history(body, 2).unwrap();
    assert_eq!(two.iter().map(|t| t.id).collect::<Vec<_>>(), vec![1, 2]);
    let now = client.get_now_playing(body).unwrap().unwrap();
    assert_eq!(now.id, 1);
    assert_eq!(now.song, "a");
    assert!(client
        .get_now_playing(r#"{"result": {"history": []}}"#)
        .unwrap()
        .is_none());
}

#[test]
fn request_urls_follow_the_base_url() {
    let client = Client::with_base_url("https://www.radiorecord.ru/api".to_string());
    assert_eq!(client.catalog_url(), "https://www.radiorecord.ru/api/stations/");
    assert_eq!(
        client.history_url(507),
        "https://www.radiorecord.ru/api/station/history/?id=507"
    );
    assert_eq!(client.history_url(-12), "https://www.radiorecord.ru/api/station/history/?id=-12");
    assert_eq!(
        client.history_url(i64::MIN),
        "https://www.radiorecord.ru/api/station/history/?id=-9223372036854775808"
    );
}

#[test]
fn ids_beyond_i64_saturate() {
    let sample = r#"{"result": {"stations": [], "genre": [{"id": 10000000000000000000, "name": "Big"}, {"id": -1e300, "name": "Small"}], "tags": []}}"#;
    let catalog = decode_catalog(&json::parse(sample).unwrap()).unwrap();
    assert_eq!(catalog.genres[0].id, i64::MAX);
    assert_eq!(catalog.genres[1].id, i64::MIN);
    let sample = r#"{"result": {"stations": [], "genre": [{"id": 1e400, "name": "Inf"}], "tags": []}}"#;
    assert!(matches!(
        decode_catalog(&json::parse(sample).unwrap()),
        Err(Error::MissingInteger(key)) if key == "id"
    ));
}
