use radiome::engine::{
    input_bindings, input_too_large, keeps_waiting, meter_due, mpv_arguments, on_connect,
    read_messages, EngineCommand, Worker, WorkerAction, WorkerRequest,
};
use radiome::player::{is_meter_reply, take_lines, EngineMessage, EngineStatus, PlayerState};

fn read_message(line: &[u8]) -> Option<EngineMessage> {
    let mut messages = read_messages(&vec![line.to_vec()]);
    assert!(messages.len() <= 1);
    messages.pop()
}

fn line(command: &EngineCommand) -> String {
    String::from_utf8(command.line()).unwrap()
}

#[test]
fn mpv_starts_with_the_meter_bindings_and_socket() {
    let args = mpv_arguments(65, "/tmp/radiome-x/input.conf", "/tmp/radiome-x/ipc", false);
    assert_eq!(args.len(), 13);
    assert_eq!(args[0], "--no-config");
    assert_eq!(args[7], "--volume-max=100");
    assert!(args[9].starts_with("--af-add=@radiome_meter:lavfi=[astats="));
    assert_eq!(args[10], "--volume=65");
    assert_eq!(args[11], "--input-conf=/tmp/radiome-x/input.conf");
    assert_eq!(args[12], "--input-ipc-server=/tmp/radiome-x/ipc");
    let args = mpv_arguments(0, "a", "b", true);
    assert_eq!(args.len(), 14);
    assert_eq!(args[10], "--volume=0");
    assert_eq!(args[13], "--ao=null");
    assert!(input_bindings().starts_with("PREV script-message radiome-previous\nNEXT script-message radiome-next\n"));
    assert_eq!(input_bindings().lines().count(), 6);
}

#[test]
fn ipc_requests_are_json_lines() {
    assert_eq!(line(&EngineCommand::SetVolume(65)), "{\"command\":[\"set_property\",\"volume\",65],\"request_id\":0}\n");
    assert_eq!(line(&EngineCommand::SetPause(false)), "{\"command\":[\"set_property\",\"pause\",false],\"request_id\":0}\n");
    assert_eq!(
        line(&EngineCommand::LoadFile("https://e.com/a\"b".to_string())),
        "{\"command\":[\"loadfile\",\"https://e.com/a\\\"b\",\"replace\"],\"request_id\":0}\n"
    );
    assert_eq!(line(&EngineCommand::CyclePause), "{\"command\":[\"cycle\",\"pause\"],\"request_id\":0}\n");
    assert_eq!(line(&EngineCommand::ObservePause), "{\"command\":[\"observe_property\",1,\"pause\"],\"request_id\":0}\n");
    assert_eq!(line(&EngineCommand::ObserveCoreIdle), "{\"command\":[\"observe_property\",2,\"core-idle\"],\"request_id\":0}\n");
    assert_eq!(
        line(&EngineCommand::ReadMeter),
        "{\"command\":[\"get_property\",\"af-metadata/radiome_meter\"],\"request_id\":10}\n"
    );
    assert_eq!(on_connect().len(), 2);
}

#[test]
fn replies_are_read_field_by_field() {
    let m = read_message(br#"{"event":"end-file","reason":"error","file_error":"loading failed"}"#).unwrap();
    assert_eq!(m.event.as_deref(), Some("end-file"));
    assert_eq!(m.reason.as_deref(), Some("error"));
    assert_eq!(m.file_error.as_deref(), Some("loading failed"));
    assert!(!is_meter_reply(&m));
    let m = read_message(br#"{"event":"client-message","args":["radiome-next"]}"#).unwrap();
    assert_eq!(m.first_arg.as_deref(), Some("radiome-next"));
    let m = read_message(br#"{"event":"property-change","id":1,"name":"pause","data":true}"#).unwrap();
    assert_eq!(m.name.as_deref(), Some("pause"));
    assert_eq!(m.data, Some(true));
    let m = read_message(
        br#"{"data":{"lavfi.astats.Overall.RMS_level":"-23.5"},"request_id":10,"error":"success"}"#,
    )
    .unwrap();
    assert!(is_meter_reply(&m));
    assert_eq!(m.rms_level.as_deref(), Some("-23.5"));
    let m = read_message(br#"{"request_id":10,"error":"property unavailable"}"#).unwrap();
    assert!(!is_meter_reply(&m));
    assert!(read_message(b"not json").is_none());
    let mut status = EngineStatus::new();
    let m = read_message(br#"{"event":"start-file"}"#).unwrap();
    assert!(status.handle(&m));
    assert_eq!(status.state, PlayerState::Buffering);
}

#[test]
fn engine_timing_and_limits() {
    assert!(keeps_waiting(19_999));
    assert!(!keeps_waiting(20_000));
    assert!(!meter_due(49));
    assert!(meter_due(50));
    assert!(!input_too_large(1_048_576));
    assert!(input_too_large(1_048_577));
}

#[test]
fn worker_starts_the_engine_once_and_reports_by_generation() {
    let mut worker = Worker::new(65);
    assert!(matches!(worker.request(WorkerRequest::Pause), WorkerAction::Nothing));
    assert!(matches!(worker.request(WorkerRequest::Volume(40)), WorkerAction::Nothing));
    assert_eq!(worker.volume, 40);
    match worker.request(WorkerRequest::Play(1, "https://e.com/a".to_string())) {
        WorkerAction::StartEngine(volume) => assert_eq!(volume, 40),
        other => panic!("unexpected {other:?}"),
    }
    let commands = worker.engine_started();
    assert_eq!(commands.len(), 2);
    assert!(matches!(commands[0], EngineCommand::SetPause(false)));
    assert!(matches!(&commands[1], EngineCommand::LoadFile(u) if u == "https://e.com/a"));
    assert_eq!(worker.engine.as_ref().unwrap().state, PlayerState::Buffering);
    worker.engine.as_mut().unwrap().media.push(1);
    let (generation, snapshot, media) = worker.report();
    assert_eq!(generation, 1);
    assert_eq!(snapshot.state, PlayerState::Buffering);
    assert_eq!(media, vec![1]);
    assert!(worker.engine.as_ref().unwrap().media.is_empty());
    match worker.request(WorkerRequest::Play(2, "https://e.com/b".to_string())) {
        WorkerAction::Send(commands) => {
            assert!(matches!(&commands[1], EngineCommand::LoadFile(u) if u == "https://e.com/b"))
        }
        other => panic!("unexpected {other:?}"),
    }
    assert!(matches!(worker.request(WorkerRequest::Pause), WorkerAction::Send(_)));
    match worker.request(WorkerRequest::Stop(3)) {
        WorkerAction::Close(generation, snapshot) => {
            assert_eq!(generation, 3);
            assert_eq!(snapshot.state, PlayerState::Idle);
        }
        other => panic!("unexpected {other:?}"),
    }
    assert!(worker.engine.is_none());
    assert!(matches!(worker.request(WorkerRequest::Quit), WorkerAction::Exit));
}

#[test]
fn engine_failures_are_reported_as_errors() {
    let mut worker = Worker::new(65);
    worker.request(WorkerRequest::Play(4, "u".to_string()));
    let (generation, snapshot) = worker.engine_failed("Could not start mpv: missing".to_string());
    assert_eq!(generation, 4);
    assert_eq!(snapshot.state, PlayerState::Error);
    assert_eq!(snapshot.error.as_deref(), Some("Could not start mpv: missing"));
    assert!(worker.engine.is_none() && worker.pending.is_none());
    worker.request(WorkerRequest::Play(5, "u".to_string()));
    worker.engine_started();
    let (generation, snapshot) = worker.tick_failed("mpv IPC closed".to_string());
    assert_eq!(generation, 5);
    assert_eq!(snapshot.state, PlayerState::Error);
    assert!(worker.engine.is_none());
}

#[test]
fn reply_lines_become_messages_and_garbage_is_skipped() {
    let mut buffer = b"{\"event\":\"start-file\"}\nnot json\n{\"event\":\"seek\"}\n{\"event\"".to_vec();
    let messages = read_messages(&take_lines(&mut buffer));
    assert_eq!(messages.len(), 2);
    assert_eq!(messages[0].event.as_deref(), Some("start-file"));
    assert_eq!(messages[1].event.as_deref(), Some("seek"));
    assert_eq!(buffer, b"{\"event\"".to_vec());
}

#[test]
fn the_ipc_wait_error_says_how_to_retry() {
    let message = radiome::engine::ipc_wait_error("No such file or directory (os error 2)");
    assert!(message.starts_with("mpv IPC: No such file or directory (os error 2) ("));
    assert!(message.ends_with("play the station again to retry)"));
}
