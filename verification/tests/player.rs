use radiome::player::{player_volume, take_lines, EngineMessage, EngineStatus, Playback, PlayerState, Snapshot};

fn report(state: PlayerState) -> Snapshot {
    Snapshot { state, error: None }
}

fn message(event: &str) -> EngineMessage {
    EngineMessage {
        event: Some(event.to_string()),
        first_arg: None,
        name: None,
        data: None,
        reason: None,
        file_error: None,
        request_id: None,
        error: None,
        rms_level: None,
    }
}

#[test]
fn late_audio_updates_cannot_restore_a_stopped_station() {
    let mut player = Playback::new();
    let first = player.play();
    assert_eq!(first, 1);
    let late = (first, report(PlayerState::Playing));
    player.stop();
    player.update(vec![late]);
    assert_eq!(player.snapshot.state, PlayerState::Idle);
    player.play();
    player.update(vec![(1, report(PlayerState::Error))]);
    assert_eq!(player.snapshot.state, PlayerState::Buffering);
}

#[test]
fn the_last_report_of_the_current_generation_wins() {
    let mut player = Playback::new();
    let g = player.play();
    player.update(vec![
        (g, report(PlayerState::Playing)),
        (g - 1, report(PlayerState::Error)),
        (g, report(PlayerState::Paused)),
        (g + 1, report(PlayerState::Idle)),
    ]);
    assert_eq!(player.generation, g);
    assert_eq!(player.snapshot.state, PlayerState::Paused);
    player.update(vec![]);
    assert_eq!(player.snapshot.state, PlayerState::Paused);
}

#[test]
fn player_volume_is_capped() {
    assert_eq!(player_volume(0), 0);
    assert_eq!(player_volume(65), 65);
    assert_eq!(player_volume(100), 100);
    assert_eq!(player_volume(255), 100);
}

#[test]
fn engine_messages_drive_the_state() {
    let mut status = EngineStatus::new();
    assert!(status.handle(&message("start-file")));
    assert_eq!(status.state, PlayerState::Buffering);

    let mut idle = message("property-change");
    idle.name = Some("core-idle".to_string());
    idle.data = Some(false);
    assert!(!status.handle(&idle));
    assert_eq!(status.state, PlayerState::Playing);

    let mut pause = message("property-change");
    pause.name = Some("pause".to_string());
    pause.data = Some(true);
    status.handle(&pause);
    assert!(status.paused);
    assert_eq!(status.state, PlayerState::Paused);
    pause.data = Some(false);
    status.handle(&pause);
    assert!(!status.paused);
    assert_eq!(status.state, PlayerState::Buffering);

    idle.data = Some(true);
    status.handle(&idle);
    assert_eq!(status.state, PlayerState::Buffering);

    let mut failed = message("end-file");
    failed.reason = Some("error".to_string());
    failed.file_error = Some("loading failed".to_string());
    status.handle(&failed);
    assert_eq!(status.state, PlayerState::Error);
    assert_eq!(status.error.as_deref(), Some("Stream unavailable: loading failed"));

    // An idle core does not hide an error.
    idle.data = Some(false);
    status.handle(&idle);
    assert_eq!(status.state, PlayerState::Error);

    let mut unknown = message("end-file");
    unknown.reason = Some("error".to_string());
    status.handle(&unknown);
    assert_eq!(status.error.as_deref(), Some("Stream unavailable: mpv error"));

    let mut eof = message("end-file");
    eof.reason = Some("eof".to_string());
    status.handle(&eof);
    assert_eq!(status.state, PlayerState::Idle);

    status.handle(&message("seek"));
    assert_eq!(status.state, PlayerState::Idle);
}

#[test]
fn media_key_messages_are_queued_in_order() {
    let mut status = EngineStatus::new();
    let mut previous = message("client-message");
    previous.first_arg = Some("radiome-previous".to_string());
    let mut next = message("client-message");
    next.first_arg = Some("radiome-next".to_string());
    let mut other = message("client-message");
    other.first_arg = Some("something".to_string());
    status.handle(&next);
    status.handle(&other);
    status.handle(&previous);
    assert_eq!(status.media, vec![1, -1]);
    assert_eq!(status.state, PlayerState::Idle);
}

#[test]
fn take_lines_keeps_the_unfinished_tail() {
    let mut buffer = b"{\"a\":1}\n{\"b\":2}\n{\"c\"".to_vec();
    let lines = take_lines(&mut buffer);
    assert_eq!(lines, vec![b"{\"a\":1}\n".to_vec(), b"{\"b\":2}\n".to_vec()]);
    assert_eq!(buffer, b"{\"c\"".to_vec());
    let mut empty: Vec<u8> = Vec::new();
    assert!(take_lines(&mut empty).is_empty());
    assert!(empty.is_empty());
    let mut blank = b"\n\n".to_vec();
    assert_eq!(take_lines(&mut blank), vec![b"\n".to_vec(), b"\n".to_vec()]);
    assert!(blank.is_empty());
}
