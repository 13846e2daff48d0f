//! The audio engine (mpv) as the audio worker drives it: the command line it
//! starts with, the IPC requests it is sent, how its replies are read, and
//! what the worker does for each request from the player. Starting the
//! process, the socket and the threads are left to the caller.
use vstd::prelude::*;

use crate::player::{EngineMessage, EngineMessageView, EngineStatus, PlayerState, Snapshot};
use crate::text::{self, natural};

verus! {

/// The audio filter that measures the RMS level of the decoded audio.
pub open spec fn meter_filter() -> Seq<char> {
    "--af-add=@radiome_meter:lavfi=[astats=metadata=1:reset=1:measure_perchannel=none:measure_overall=RMS_level]"@
}

/// The command line of the audio engine: no configuration, video or terminal,
/// no default key bindings, volume at most 100, a 10 s network timeout, the
/// level meter, the start volume, the key bindings file, the IPC socket and,
/// for tests, no audio output.
pub open spec fn mpv_args(volume: u8, input_conf: Seq<char>, ipc: Seq<char>, null_audio: bool) -> Seq<Seq<char>> {
    seq![
        "--no-config"@,
        "--no-video"@,
        "--no-terminal"@,
        "--idle=yes"@,
        "--input-default-bindings=no"@,
        "--input-vo-keyboard=no"@,
        "--audio-display=no"@,
        "--volume-max=100"@,
        "--network-timeout=10"@,
        meter_filter(),
        "--volume="@ + text::nat_text(volume as nat),
        "--input-conf="@ + input_conf,
        "--input-ipc-server="@ + ipc,
    ] + (if null_audio {
        seq!["--ao=null"@]
    } else {
        Seq::empty()
    })
}

/// The arguments to start the audio engine with.
pub fn mpv_arguments(volume: u8, input_conf: &str, ipc: &str, null_audio: bool) -> (r: Vec<String>)
    ensures
        text::texts_view(r@) == mpv_args(volume, input_conf@, ipc@, null_audio),
{
    let mut r: Vec<String> = Vec::new();
    r.push("--no-config".to_owned());
    r.push("--no-video".to_owned());
    r.push("--no-terminal".to_owned());
    r.push("--idle=yes".to_owned());
    r.push("--input-default-bindings=no".to_owned());
    r.push("--input-vo-keyboard=no".to_owned());
    r.push("--audio-display=no".to_owned());
    r.push("--volume-max=100".to_owned());
    r.push("--network-timeout=10".to_owned());
    r.push(
        "--af-add=@radiome_meter:lavfi=[astats=metadata=1:reset=1:measure_perchannel=none:measure_overall=RMS_level]".to_owned(),
    );
    r.push("--volume=".to_owned().concat(natural(volume as u64).as_str()));
    r.push("--input-conf=".to_owned().concat(input_conf));
    r.push("--input-ipc-server=".to_owned().concat(ipc));
    if null_audio {
        r.push("--ao=null".to_owned());
    }
    assert(text::texts_view(r@) =~= mpv_args(volume, input_conf@, ipc@, null_audio));
    r
}

/// The key bindings of the engine: the system media keys' previous and next
/// go back to the player as messages; play, pause and play/pause act on the
/// engine itself.
pub open spec fn input_bindings_text() -> Seq<char> {
    "PREV script-message radiome-previous\nNEXT script-message radiome-next\nPLAY cycle pause\nPLAYPAUSE cycle pause\nPLAYONLY set pause no\nPAUSEONLY set pause yes\n"@
}

pub fn input_bindings() -> (r: &'static str)
    ensures
        r@ == input_bindings_text(),
{
    "PREV script-message radiome-previous\nNEXT script-message radiome-next\nPLAY cycle pause\nPLAYPAUSE cycle pause\nPLAYONLY set pause no\nPAUSEONLY set pause yes\n"
}

/// How long the engine may take to open its IPC socket, in milliseconds.
pub const IPC_WAIT_MS: u64 = 20000;

/// How often the level is read, in milliseconds (20 Hz).
pub const METER_INTERVAL_MS: u64 = 50;

/// The most unread reply bytes that the engine may leave.
pub const INPUT_LIMIT: usize = 1048576;

/// Whether a failed connection to the IPC socket is still worth retrying.
pub fn keeps_waiting(elapsed_ms: u64) -> (r: bool)
    ensures
        r == (elapsed_ms < IPC_WAIT_MS),
{
    elapsed_ms < IPC_WAIT_MS
}

/// What the user is told when the IPC socket did not open in time: how to retry.
pub open spec fn ipc_retry_hint() -> Seq<char> {
    " (mpv did not open its control socket within 20 seconds; play the station again to retry)"@
}

/// The error when the IPC socket did not open in time: the reason, then how to retry.
pub fn ipc_wait_error(detail: &str) -> (r: String)
    ensures
        r@ == "mpv IPC: "@ + detail@ + ipc_retry_hint(),
{
    "mpv IPC: ".to_owned().concat(detail).concat(
        " (mpv did not open its control socket within 20 seconds; play the station again to retry)",
    )
}

/// Whether the next level reading is due.
pub fn meter_due(elapsed_ms: u64) -> (r: bool)
    ensures
        r == (elapsed_ms >= METER_INTERVAL_MS),
{
    elapsed_ms >= METER_INTERVAL_MS
}

/// Whether the unread replies have grown too large.
pub fn input_too_large(len: usize) -> (r: bool)
    ensures
        r == (len > INPUT_LIMIT),
{
    len > INPUT_LIMIT
}

/// A value in an IPC command.
#[derive(Debug, PartialEq, Eq)]
pub enum IpcValue {
    Text(String),
    Number(u64),
    Flag(bool),
}

/// The abstract form of an [`IpcValue`].
pub enum IpcValueView {
    Text(Seq<char>),
    Number(u64),
    Flag(bool),
}

impl View for IpcValue {
    type V = IpcValueView;

    open spec fn view(&self) -> IpcValueView {
        match self {
            IpcValue::Text(t) => IpcValueView::Text(t@),
            IpcValue::Number(n) => IpcValueView::Number(*n),
            IpcValue::Flag(b) => IpcValueView::Flag(*b),
        }
    }
}

pub open spec fn ipc_values_view(v: Seq<IpcValue>) -> Seq<IpcValueView> {
    v.map_values(|x: IpcValue| x@)
}

/// A command to the audio engine.
#[derive(Debug)]
pub enum EngineCommand {
    SetVolume(u8),
    SetPause(bool),
    /// Play this URL in place of what plays.
    LoadFile(String),
    CyclePause,
    /// Report changes of the pause flag.
    ObservePause,
    /// Report whether the core consumes audio.
    ObserveCoreIdle,
    /// Read the level meter.
    ReadMeter,
}

/// The abstract form of an [`EngineCommand`].
pub enum EngineCommandView {
    SetVolume(u8),
    SetPause(bool),
    LoadFile(Seq<char>),
    CyclePause,
    ObservePause,
    ObserveCoreIdle,
    ReadMeter,
}

impl View for EngineCommand {
    type V = EngineCommandView;

    open spec fn view(&self) -> EngineCommandView {
        match self {
            EngineCommand::SetVolume(v) => EngineCommandView::SetVolume(*v),
            EngineCommand::SetPause(b) => EngineCommandView::SetPause(*b),
            EngineCommand::LoadFile(u) => EngineCommandView::LoadFile(u@),
            EngineCommand::CyclePause => EngineCommandView::CyclePause,
            EngineCommand::ObservePause => EngineCommandView::ObservePause,
            EngineCommand::ObserveCoreIdle => EngineCommandView::ObserveCoreIdle,
            EngineCommand::ReadMeter => EngineCommandView::ReadMeter,
        }
    }
}

pub open spec fn commands_view(v: Seq<EngineCommand>) -> Seq<EngineCommandView> {
    v.map_values(|c: EngineCommand| c@)
}

/// The words of a command as the engine's IPC takes them.
pub open spec fn command_words(c: EngineCommandView) -> Seq<IpcValueView> {
    match c {
        EngineCommandView::SetVolume(v) => seq![
            IpcValueView::Text("set_property"@),
            IpcValueView::Text("volume"@),
            IpcValueView::Number(v as u64),
        ],
        EngineCommandView::SetPause(b) => seq![
            IpcValueView::Text("set_property"@),
            IpcValueView::Text("pause"@),
            IpcValueView::Flag(b),
        ],
        EngineCommandView::LoadFile(u) => seq![
            IpcValueView::Text("loadfile"@),
            IpcValueView::Text(u),
            IpcValueView::Text("replace"@),
        ],
        EngineCommandView::CyclePause => seq![
            IpcValueView::Text("cycle"@),
            IpcValueView::Text("pause"@),
        ],
        EngineCommandView::ObservePause => seq![
            IpcValueView::Text("observe_property"@),
            IpcValueView::Number(1),
            IpcValueView::Text("pause"@),
        ],
        EngineCommandView::ObserveCoreIdle => seq![
            IpcValueView::Text("observe_property"@),
            IpcValueView::Number(2),
            IpcValueView::Text("core-idle"@),
        ],
        EngineCommandView::ReadMeter => seq![
            IpcValueView::Text("get_property"@),
            IpcValueView::Text("af-metadata/radiome_meter"@),
        ],
    }
}

/// The request id of a command: the meter reading has its own, the others 0.
pub open spec fn command_id(c: EngineCommandView) -> u64 {
    match c {
        EngineCommandView::ReadMeter => crate::player::METER_REQUEST,
        _ => 0,
    }
}

/// What `serde_json` writes for the request `{"command": words, "request_id": id}`.
pub uninterp spec fn ipc_request_bytes(words: Seq<IpcValueView>, id: u64) -> Seq<u8>;

/// Serialises the IPC request `{"command": words, "request_id": id}` with
/// `serde_json::to_vec`; the contract names the bytes without stating them.
#[verifier::external_body]
fn ipc_request(words: &Vec<IpcValue>, id: u64) -> (r: Vec<u8>)
    ensures
        r@ == ipc_request_bytes(ipc_values_view(words@), id),
{
    let command: Vec<serde_json::Value> = words.iter().map(|w| match w {
        IpcValue::Text(t) => serde_json::Value::from(t.as_str()),
        IpcValue::Number(n) => serde_json::Value::from(*n),
        IpcValue::Flag(b) => serde_json::Value::from(*b),
    }).collect();
    let mut request = serde_json::Map::new();
    request.insert("command".to_owned(), serde_json::Value::Array(command));
    request.insert("request_id".to_owned(), serde_json::Value::from(id));
    serde_json::to_vec(&serde_json::Value::Object(request)).unwrap_or_default()
}

/// What `serde_json::from_slice` reads from a reply line, with the fields the
/// player looks at picked out; `None` when the line is no JSON.
pub uninterp spec fn engine_message_of(line: Seq<u8>) -> Option<EngineMessageView>;

pub open spec fn message_view(m: Option<EngineMessage>) -> Option<EngineMessageView> {
    match m {
        Some(x) => Some(x@),
        None => None,
    }
}

/// Reads one reply line of the engine with `serde_json::from_slice` and picks
/// out the fields the player looks at; the contract names the result without
/// stating it.
#[verifier::external_body]
fn read_message(line: &[u8]) -> (r: Option<EngineMessage>)
    ensures
        message_view(r) == engine_message_of(line@),
{
    let v: serde_json::Value = serde_json::from_slice(line).ok()?;
    let text = |x: &serde_json::Value| x.as_str().map(str::to_owned);
    Some(EngineMessage {
        event: text(&v["event"]),
        first_arg: text(&v["args"][0]),
        name: text(&v["name"]),
        data: v["data"].as_bool(),
        reason: text(&v["reason"]),
        file_error: text(&v["file_error"]),
        request_id: v["request_id"].as_i64(),
        error: text(&v["error"]),
        rms_level: text(&v["data"]["lavfi.astats.Overall.RMS_level"]),
    })
}

/// The messages that a list of reply lines holds, in order; lines that are no
/// JSON are skipped.
pub open spec fn messages_in(lines: Seq<Seq<u8>>) -> Seq<EngineMessageView>
    decreases lines.len(),
{
    if lines.len() == 0 {
        Seq::empty()
    } else {
        let rest = messages_in(lines.drop_last());
        match engine_message_of(lines.last()) {
            Some(m) => rest.push(m),
            None => rest,
        }
    }
}

pub open spec fn bytes_view(lines: Seq<Vec<u8>>) -> Seq<Seq<u8>> {
    lines.map_values(|l: Vec<u8>| l@)
}

pub open spec fn engine_messages_view(v: Seq<EngineMessage>) -> Seq<EngineMessageView> {
    v.map_values(|m: EngineMessage| m@)
}

/// Reads the engine's reply lines.
pub fn read_messages(lines: &Vec<Vec<u8>>) -> (r: Vec<EngineMessage>)
    ensures
        engine_messages_view(r@) == messages_in(bytes_view(lines@)),
{
    let ghost all = bytes_view(lines@);
    let mut r: Vec<EngineMessage> = Vec::new();
    let mut i: usize = 0;
    while i < lines.len()
        invariant
            all == bytes_view(lines@),
            i <= lines@.len(),
            engine_messages_view(r@) == messages_in(all.take(i as int)),
        decreases lines@.len() - i,
    {
        assert(all.take(i + 1).drop_last() =~= all.take(i as int));
        assert(all.take(i + 1).last() == lines@[i as int]@);
        let ghost before = engine_messages_view(r@);
        match read_message(lines[i].as_slice()) {
            Some(m) => {
                let ghost v = m@;
                r.push(m);
                assert(engine_messages_view(r@) =~= before.push(v));
            },
            None => {},
        }
        i += 1;
    }
    assert(all.take(i as int) =~= all);
    r
}

impl EngineCommand {
    /// The words of the command.
    pub fn words(&self) -> (r: Vec<IpcValue>)
        ensures
            ipc_values_view(r@) == command_words(self@),
    {
        let r = match self {
            EngineCommand::SetVolume(v) => vec![
                IpcValue::Text("set_property".to_owned()),
                IpcValue::Text("volume".to_owned()),
                IpcValue::Number(*v as u64),
            ],
            EngineCommand::SetPause(b) => vec![
                IpcValue::Text("set_property".to_owned()),
                IpcValue::Text("pause".to_owned()),
                IpcValue::Flag(*b),
            ],
            EngineCommand::LoadFile(u) => vec![
                IpcValue::Text("loadfile".to_owned()),
                IpcValue::Text(u.clone()),
                IpcValue::Text("replace".to_owned()),
            ],
            EngineCommand::CyclePause => vec![
                IpcValue::Text("cycle".to_owned()),
                IpcValue::Text("pause".to_owned()),
            ],
            EngineCommand::ObservePause => vec![
                IpcValue::Text("observe_property".to_owned()),
                IpcValue::Number(1),
                IpcValue::Text("pause".to_owned()),
            ],
            EngineCommand::ObserveCoreIdle => vec![
                IpcValue::Text("observe_property".to_owned()),
                IpcValue::Number(2),
                IpcValue::Text("core-idle".to_owned()),
            ],
            EngineCommand::ReadMeter => vec![
                IpcValue::Text("get_property".to_owned()),
                IpcValue::Text("af-metadata/radiome_meter".to_owned()),
            ],
        };
        assert(ipc_values_view(r@) =~= command_words(self@));
        r
    }

    /// The request id of the command.
    pub fn request_id(&self) -> (r: u64)
        ensures
            r == command_id(self@),
    {
        match self {
            EngineCommand::ReadMeter => 10,
            _ => 0,
        }
    }

    /// The IPC line of the command: the serialised request and a newline.
    pub fn line(&self) -> (r: Vec<u8>)
        ensures
            r@ == ipc_request_bytes(command_words(self@), command_id(self@)).push(10u8),
    {
        let words = self.words();
        let mut r = ipc_request(&words, self.request_id());
        r.push(10u8);
        r
    }
}

/// The commands sent once the IPC socket is open: report pause and core-idle changes.
pub fn on_connect() -> (r: Vec<EngineCommand>)
    ensures
        commands_view(r@) == seq![EngineCommandView::ObservePause, EngineCommandView::ObserveCoreIdle],
{
    let r = vec![EngineCommand::ObservePause, EngineCommand::ObserveCoreIdle];
    assert(commands_view(r@) =~= seq![EngineCommandView::ObservePause, EngineCommandView::ObserveCoreIdle]);
    r
}

/// A request from the player to the audio worker.
#[derive(Debug)]
pub enum WorkerRequest {
    /// Play a URL; the reports about it carry the generation.
    Play(u64, String),
    /// Toggle pause.
    Pause,
    /// Stop; the reports after it carry the generation.
    Stop(u64),
    Volume(u8),
    Quit,
}

/// What the audio worker does next.
#[derive(Debug)]
pub enum WorkerAction {
    /// Leave the loop.
    Exit,
    /// Start the engine at this volume, then call [`Worker::engine_started`]
    /// or [`Worker::engine_failed`].
    StartEngine(u8),
    /// Send these commands to the running engine.
    Send(Vec<EngineCommand>),
    /// Close the engine, if one runs, and send this report.
    Close(u64, Snapshot),
    Nothing,
}

/// The audio worker: the generation of the last play or stop request, the
/// volume, the state of the running engine (none when no engine runs) and the
/// URL waiting for the engine to start.
#[derive(Debug)]
pub struct Worker {
    pub generation: u64,
    pub volume: u8,
    pub engine: Option<EngineStatus>,
    pub pending: Option<String>,
}

/// One thing that happens to the audio worker: a request, the engine's start
/// (or its failure), or a tick of the running engine that failed or reported.
pub enum WorkerEvent {
    Request(WorkerRequest),
    Started,
    StartFailed,
    TickFailed,
    Ticked,
}

/// The generation of the report that an action sends, if it sends one.
pub open spec fn sent_by(a: WorkerAction) -> Option<u64> {
    match a {
        WorkerAction::Close(g, _) => Some(g),
        _ => None,
    }
}

/// How one event moves the worker's generation, and which generation the
/// report it sends (if any) carries: play and stop requests set the generation,
/// and a stop reports with it; a failed start, a failed tick and a good tick
/// report with the current generation; nothing else reports.
pub open spec fn worker_step(w0: Worker, e: WorkerEvent, w1: Worker, sent: Option<u64>) -> bool {
    match e {
        WorkerEvent::Request(WorkerRequest::Play(g, _)) => w1.generation == g && sent is None,
        WorkerEvent::Request(WorkerRequest::Stop(g)) => w1.generation == g && sent == Some(g),
        WorkerEvent::Request(_) => w1.generation == w0.generation && sent is None,
        WorkerEvent::Started => w1.generation == w0.generation && sent is None,
        _ => w1.generation == w0.generation && sent == Some(w0.generation),
    }
}

/// The generation of the last play or stop request among `events`, or `g0`
/// when there is none.
pub open spec fn last_generation(events: Seq<WorkerEvent>, g0: u64) -> u64
    decreases events.len(),
{
    if events.len() == 0 {
        g0
    } else {
        match events.last() {
            WorkerEvent::Request(WorkerRequest::Play(g, _)) => g,
            WorkerEvent::Request(WorkerRequest::Stop(g)) => g,
            _ => last_generation(events.drop_last(), g0),
        }
    }
}

/// The commands that start a URL: unpause, then load it in place of what plays.
pub open spec fn start_commands(url: Seq<char>) -> Seq<EngineCommandView> {
    seq![EngineCommandView::SetPause(false), EngineCommandView::LoadFile(url)]
}

fn start_url(url: String) -> (r: Vec<EngineCommand>)
    ensures
        commands_view(r@) == start_commands(url@),
{
    let ghost u = url@;
    let r = vec![EngineCommand::SetPause(false), EngineCommand::LoadFile(url)];
    assert(commands_view(r@) =~= start_commands(u));
    r
}

/// An engine state that loads a new URL: buffering, no error, not paused,
/// with the media requests it had.
pub open spec fn loading(before: EngineStatus, after: EngineStatus) -> bool {
    &&& after.state == PlayerState::Buffering
    &&& after.error is None
    &&& !after.paused
    &&& after.media == before.media
}

impl Worker {
    pub fn new(volume: u8) -> (r: Self)
        ensures
            r.generation == 0,
            r.volume == volume,
            r.engine is None,
            r.pending is None,
    {
        Worker { generation: 0, volume, engine: None, pending: None }
    }

    /// Handles one request.
    pub fn request(&mut self, req: WorkerRequest) -> (r: WorkerAction)
        ensures
            worker_step(*old(self), WorkerEvent::Request(req), *final(self), sent_by(r)),
            match req {
                WorkerRequest::Quit => r is Exit && *final(self) == *old(self),
                WorkerRequest::Volume(v) => {
                    &&& final(self).volume == v
                    &&& final(self).generation == old(self).generation
                    &&& final(self).engine == old(self).engine
                    &&& final(self).pending == old(self).pending
                    &&& match old(self).engine {
                        Some(_) => r matches WorkerAction::Send(c) && commands_view(c@) == seq![
                            EngineCommandView::SetVolume(v),
                        ],
                        None => r is Nothing,
                    }
                },
                WorkerRequest::Play(g, url) => {
                    &&& final(self).generation == g
                    &&& final(self).volume == old(self).volume
                    &&& match old(self).engine {
                        None => {
                            &&& r matches WorkerAction::StartEngine(v) && v == old(self).volume
                            &&& final(self).engine is None
                            &&& final(self).pending matches Some(p) && p@ == url@
                        },
                        Some(e) => {
                            &&& r matches WorkerAction::Send(c) && commands_view(c@) == start_commands(url@)
                            &&& final(self).engine matches Some(f) && loading(e, f)
                            &&& final(self).pending == old(self).pending
                        },
                    }
                },
                WorkerRequest::Pause => {
                    &&& *final(self) == *old(self)
                    &&& match old(self).engine {
                        Some(_) => r matches WorkerAction::Send(c) && commands_view(c@) == seq![
                            EngineCommandView::CyclePause,
                        ],
                        None => r is Nothing,
                    }
                },
                WorkerRequest::Stop(g) => {
                    &&& final(self).generation == g
                    &&& final(self).volume == old(self).volume
                    &&& final(self).engine is None
                    &&& final(self).pending is None
                    &&& r matches WorkerAction::Close(x, s) && x == g && s.state == PlayerState::Idle
                        && s.error is None
                },
            },
    {
        match req {
            WorkerRequest::Quit => WorkerAction::Exit,
            WorkerRequest::Volume(v) => {
                self.volume = v;
                match &self.engine {
                    Some(_) => {
                        let c = vec![EngineCommand::SetVolume(v)];
                        assert(commands_view(c@) =~= seq![EngineCommandView::SetVolume(v)]);
                        WorkerAction::Send(c)
                    },
                    None => WorkerAction::Nothing,
                }
            },
            WorkerRequest::Play(g, url) => {
                self.generation = g;
                match self.engine.take() {
                    None => {
                        self.pending = Some(url);
                        WorkerAction::StartEngine(self.volume)
                    },
                    Some(e) => {
                        let loaded = EngineStatus {
                            state: PlayerState::Buffering,
                            error: None,
                            paused: false,
                            media: e.media,
                        };
                        self.engine = Some(loaded);
                        WorkerAction::Send(start_url(url))
                    },
                }
            },
            WorkerRequest::Pause => match &self.engine {
                Some(_) => {
                    let c = vec![EngineCommand::CyclePause];
                    assert(commands_view(c@) =~= seq![EngineCommandView::CyclePause]);
                    WorkerAction::Send(c)
                },
                None => WorkerAction::Nothing,
            },
            WorkerRequest::Stop(g) => {
                self.generation = g;
                self.engine = None;
                self.pending = None;
                WorkerAction::Close(g, Snapshot::default())
            },
        }
    }

    /// The engine has started: it loads the waiting URL.
    pub fn engine_started(&mut self) -> (r: Vec<EngineCommand>)
        requires
            old(self).pending is Some,
        ensures
            worker_step(*old(self), WorkerEvent::Started, *final(self), None),
            final(self).generation == old(self).generation,
            final(self).volume == old(self).volume,
            final(self).pending is None,
            final(self).engine matches Some(e) && e.state == PlayerState::Buffering && e.error is None
                && !e.paused && e.media@.len() == 0,
            commands_view(r@) == start_commands(old(self).pending->Some_0@),
    {
        let url = match self.pending.take() {
            Some(u) => u,
            None => String::new(),
        };
        self.engine = Some(EngineStatus {
            state: PlayerState::Buffering,
            error: None,
            paused: false,
            media: Vec::new(),
        });
        start_url(url)
    }

    /// The engine did not start: the report of the error.
    pub fn engine_failed(&mut self, error: String) -> (r: (u64, Snapshot))
        ensures
            worker_step(*old(self), WorkerEvent::StartFailed, *final(self), Some(r.0)),
            final(self).generation == old(self).generation,
            final(self).volume == old(self).volume,
            final(self).engine is None,
            final(self).pending is None,
            r.0 == old(self).generation,
            r.1.state == PlayerState::Error,
            r.1.error == Some(error),
    {
        self.pending = None;
        self.engine = None;
        (self.generation, Snapshot { state: PlayerState::Error, error: Some(error) })
    }

    /// The engine failed while running: it is closed, and the report of the error.
    pub fn tick_failed(&mut self, error: String) -> (r: (u64, Snapshot))
        ensures
            worker_step(*old(self), WorkerEvent::TickFailed, *final(self), Some(r.0)),
            final(self).generation == old(self).generation,
            final(self).volume == old(self).volume,
            final(self).engine is None,
            final(self).pending == old(self).pending,
            r.0 == old(self).generation,
            r.1.state == PlayerState::Error,
            r.1.error == Some(error),
    {
        self.engine = None;
        (self.generation, Snapshot { state: PlayerState::Error, error: Some(error) })
    }

    /// The report after a good tick of a running engine, and the media key
    /// requests it received, which are handed on to the player.
    pub fn report(&mut self) -> (r: (u64, Snapshot, Vec<isize>))
        requires
            old(self).engine is Some,
        ensures
            worker_step(*old(self), WorkerEvent::Ticked, *final(self), Some(r.0)),
            final(self).generation == old(self).generation,
            final(self).volume == old(self).volume,
            final(self).pending == old(self).pending,
            r.0 == old(self).generation,
            final(self).engine matches Some(e) && {
                let o = old(self).engine->Some_0;
                &&& e.state == o.state
                &&& e.error == o.error
                &&& e.paused == o.paused
                &&& e.media@.len() == 0
                &&& r.1.state == o.state
                &&& r.1.error == o.error
                &&& r.2@ == o.media@
            },
    {
        let e = match self.engine.take() {
            Some(e) => e,
            None => EngineStatus::new(),
        };
        let snapshot = Snapshot { state: e.state, error: clone_text(&e.error) };
        self.engine = Some(EngineStatus { state: e.state, error: e.error, paused: e.paused, media: Vec::new() });
        (self.generation, snapshot, e.media)
    }
}

fn clone_text(t: &Option<String>) -> (r: Option<String>)
    ensures
        r == *t,
{
    match t {
        Some(s) => Some(s.clone()),
        None => None,
    }
}

} // verus!
