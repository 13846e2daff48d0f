//! What the player reports, which of its reports still count, and how the
//! audio engine's events change its state.
use vstd::prelude::*;

use crate::text::same_text;

verus! {

/// The state of playback.
#[derive(Debug, Clone, Copy, PartialEq, Eq, Structural)]
pub enum PlayerState {
    Idle,
    Buffering,
    Playing,
    Paused,
    Error,
}

impl Default for PlayerState {
    fn default() -> (r: Self)
        ensures
            r == PlayerState::Idle,
    {
        PlayerState::Idle
    }
}

/// What the player reports: its state and the error it met, if any.
/// (The audio level that goes with a report is measured and kept by the audio side.)
#[derive(Debug)]
pub struct Snapshot {
    pub state: PlayerState,
    pub error: Option<String>,
}

impl Default for Snapshot {
    fn default() -> (r: Self)
        ensures
            r.state == PlayerState::Idle,
            r.error is None,
    {
        Snapshot { state: PlayerState::Idle, error: None }
    }
}

impl Clone for Snapshot {
    fn clone(&self) -> (r: Self)
        ensures
            r == *self,
    {
        Snapshot {
            state: self.state,
            error: match &self.error {
                Some(e) => Some(e.clone()),
                None => None,
            },
        }
    }
}

impl Snapshot {
    /// The report of a station that is loading.
    pub fn buffering() -> (r: Self)
        ensures
            r.state == PlayerState::Buffering,
            r.error is None,
    {
        Snapshot { state: PlayerState::Buffering, error: None }
    }
}

/// The player's side of the conversation with the audio worker: every play or
/// stop request opens a new generation, and reports of older generations are
/// dropped, so a late report cannot bring back a station that was left.
#[derive(Debug)]
pub struct Playback {
    pub generation: u64,
    pub snapshot: Snapshot,
}

impl Playback {
    pub fn new() -> (r: Self)
        ensures
            r.generation == 0,
            r.snapshot.state == PlayerState::Idle,
            r.snapshot.error is None,
    {
        Playback { generation: 0, snapshot: Snapshot::default() }
    }

    /// Starts a new generation for a play request and reports buffering;
    /// returns the generation to send with the request.
    pub fn play(&mut self) -> (r: u64)
        requires
            old(self).generation < u64::MAX,
        ensures
            r == old(self).generation + 1,
            final(self).generation == r,
            final(self).snapshot.state == PlayerState::Buffering,
            final(self).snapshot.error is None,
    {
        self.generation = self.generation + 1;
        self.snapshot = Snapshot::buffering();
        self.generation
    }

    /// Starts a new generation for a stop request and reports idle;
    /// returns the generation to send with the request.
    pub fn stop(&mut self) -> (r: u64)
        requires
            old(self).generation < u64::MAX,
        ensures
            r == old(self).generation + 1,
            final(self).generation == r,
            final(self).snapshot.state == PlayerState::Idle,
            final(self).snapshot.error is None,
    {
        self.generation = self.generation + 1;
        self.snapshot = Snapshot::default();
        self.generation
    }

    /// Takes the reports in the order they came: each of the current generation
    /// replaces the snapshot, the others are dropped.
    pub fn update(&mut self, reports: Vec<(u64, Snapshot)>)
        ensures
            final(self).generation == old(self).generation,
            latest_report(reports@, old(self).generation) == -1 ==> final(self).snapshot
                == old(self).snapshot,
            latest_report(reports@, old(self).generation) >= 0 ==> final(self).snapshot
                == reports@[latest_report(reports@, old(self).generation)].1,
    {
        let ghost all = reports@;
        let mut queue = reports;
        let mut i: usize = queue.len();
        // Walk backwards: the last report of the current generation wins.
        while i > 0
            invariant
                all == reports@,
                i <= all.len(),
                queue@ == all.subrange(0, i as int),
                self.generation == old(self).generation,
                self.snapshot == old(self).snapshot,
                forall|j: int| i <= j < all.len() ==> all[j].0 != self.generation,
            decreases i,
        {
            let (generation, update) = queue.pop().unwrap();
            i -= 1;
            assert(all[i as int] == (generation, update));
            if generation == self.generation {
                proof {
                    lemma_latest_report(all, self.generation, i as int);
                }
                self.snapshot = update;
                return;
            }
        }
        proof {
            lemma_latest_report_none(all, self.generation);
        }
    }
}

/// The index of the last report of generation `g`, or -1.
pub open spec fn latest_report(reports: Seq<(u64, Snapshot)>, g: u64) -> int
    decreases reports.len(),
{
    if reports.len() == 0 {
        -1
    } else if reports.last().0 == g {
        reports.len() - 1
    } else {
        latest_report(reports.drop_last(), g)
    }
}

proof fn lemma_latest_report(reports: Seq<(u64, Snapshot)>, g: u64, i: int)
    requires
        0 <= i < reports.len(),
        reports[i].0 == g,
        forall|j: int| i < j < reports.len() ==> reports[j].0 != g,
    ensures
        latest_report(reports, g) == i,
    decreases reports.len(),
{
    if i < reports.len() - 1 {
        lemma_latest_report(reports.drop_last(), g, i);
    }
}

proof fn lemma_latest_report_none(reports: Seq<(u64, Snapshot)>, g: u64)
    requires
        forall|j: int| 0 <= j < reports.len() ==> reports[j].0 != g,
    ensures
        latest_report(reports, g) == -1,
    decreases reports.len(),
{
    if reports.len() > 0 {
        lemma_latest_report_none(reports.drop_last(), g);
    }
}

/// A report of the current generation after a stop leaves the player where the
/// reports put it; reports of earlier generations change nothing: after `stop`,
/// reports sent before it cannot restore playback.
pub proof fn stale_reports_are_dropped(reports: Seq<(u64, Snapshot)>, g: u64)
    requires
        forall|j: int| 0 <= j < reports.len() ==> reports[j].0 < g,
    ensures
        latest_report(reports, g) == -1,
{
    lemma_latest_report_none(reports, g);
}

/// The volume sent to the player: at most 100.
pub fn player_volume(volume: u8) -> (r: u8)
    ensures
        r == (if volume > 100 { 100 } else { volume }),
{
    if volume > 100 {
        100
    } else {
        volume
    }
}


/// The fields of an audio-engine message that the player reads.
#[derive(Debug)]
pub struct EngineMessage {
    /// `event`, when it is a string.
    pub event: Option<String>,
    /// The first of `args`, when it is a string.
    pub first_arg: Option<String>,
    /// `name`, when it is a string.
    pub name: Option<String>,
    /// `data`, when it is a boolean.
    pub data: Option<bool>,
    /// `reason`, when it is a string.
    pub reason: Option<String>,
    /// `file_error`, when it is a string.
    pub file_error: Option<String>,
    /// `request_id`, when it is an integer.
    pub request_id: Option<i64>,
    /// `error`, when it is a string.
    pub error: Option<String>,
    /// The RMS level (in dB, as text) in the meter metadata under `data`, when
    /// it is a string.
    pub rms_level: Option<String>,
}

/// The abstract form of an [`EngineMessage`].
pub struct EngineMessageView {
    pub event: Option<Seq<char>>,
    pub first_arg: Option<Seq<char>>,
    pub name: Option<Seq<char>>,
    pub data: Option<bool>,
    pub reason: Option<Seq<char>>,
    pub file_error: Option<Seq<char>>,
    pub request_id: Option<i64>,
    pub error: Option<Seq<char>>,
    pub rms_level: Option<Seq<char>>,
}

pub open spec fn text_view(t: Option<String>) -> Option<Seq<char>> {
    match t {
        Some(x) => Some(x@),
        None => None,
    }
}

impl View for EngineMessage {
    type V = EngineMessageView;

    open spec fn view(&self) -> EngineMessageView {
        EngineMessageView {
            event: text_view(self.event),
            first_arg: text_view(self.first_arg),
            name: text_view(self.name),
            data: self.data,
            reason: text_view(self.reason),
            file_error: text_view(self.file_error),
            request_id: self.request_id,
            error: text_view(self.error),
            rms_level: text_view(self.rms_level),
        }
    }
}

/// The request id of the meter readings.
pub const METER_REQUEST: u64 = 10;

/// Whether a message answers a meter reading with success.
pub open spec fn meter_reply(m: EngineMessage) -> bool {
    m.request_id == Some(METER_REQUEST as i64) && text_is(m.error, "success"@)
}

/// Whether a message answers a meter reading with success; its level then
/// feeds the meter.
pub fn is_meter_reply(m: &EngineMessage) -> (r: bool)
    ensures
        r == meter_reply(*m),
{
    m.request_id == Some(10i64) && text_eq(&m.error, "success")
}

/// Whether an optional text is `lit`.
pub open spec fn text_is(t: Option<String>, lit: Seq<char>) -> bool {
    t matches Some(x) && x@ == lit
}

/// The text of an error that ended a stream.
pub open spec fn stream_error_text(file_error: Option<String>) -> Seq<char> {
    "Stream unavailable: "@ + (match file_error {
        Some(e) => e@,
        None => "mpv error"@,
    })
}

/// The engine's state as its messages leave it: the report it would send,
/// whether playback is paused, and the previous (-1) and next (1) requests
/// that the media keys sent.
#[derive(Debug)]
pub struct EngineStatus {
    pub state: PlayerState,
    pub error: Option<String>,
    pub paused: bool,
    pub media: Vec<isize>,
}

fn text_eq(t: &Option<String>, lit: &str) -> (r: bool)
    ensures
        r == text_is(*t, lit@),
{
    match t {
        Some(x) => same_text(x.as_str(), lit),
        None => false,
    }
}

impl EngineStatus {
    pub fn new() -> (r: Self)
        ensures
            r.state == PlayerState::Idle,
            r.error is None,
            !r.paused,
            r.media@.len() == 0,
    {
        EngineStatus { state: PlayerState::Idle, error: None, paused: false, media: Vec::new() }
    }

    /// Applies one message; returns true when a new file starts, which restarts
    /// the level measurement.
    pub fn handle(&mut self, m: &EngineMessage) -> (restart: bool)
        ensures
            restart == text_is(m.event, "start-file"@),
            // media keys
            text_is(m.event, "client-message"@) && text_is(m.first_arg, "radiome-previous"@)
                ==> final(self).media@ == old(self).media@.push(-1isize),
            text_is(m.event, "client-message"@) && text_is(m.first_arg, "radiome-next"@)
                ==> final(self).media@ == old(self).media@.push(1isize),
            !(text_is(m.event, "client-message"@) && (text_is(m.first_arg, "radiome-previous"@)
                || text_is(m.event, "client-message"@) && text_is(m.first_arg, "radiome-next"@)))
                ==> final(self).media@ == old(self).media@,
            // a new file
            text_is(m.event, "start-file"@) ==> final(self).state == PlayerState::Buffering
                && final(self).error is None && final(self).paused == old(self).paused,
            // pause changes
            text_is(m.event, "property-change"@) && text_is(m.name, "pause"@) ==> {
                let paused = m.data == Some(true);
                &&& final(self).paused == paused
                &&& final(self).error == old(self).error
                &&& final(self).state == (if paused {
                    PlayerState::Paused
                } else if old(self).state == PlayerState::Paused {
                    PlayerState::Buffering
                } else {
                    old(self).state
                })
            },
            // the core starts or stops consuming audio
            text_is(m.event, "property-change"@) && text_is(m.name, "core-idle"@) ==> {
                &&& final(self).paused == old(self).paused
                &&& final(self).error == old(self).error
                &&& final(self).state == (if old(self).state == PlayerState::Error || old(
                    self,
                ).state == PlayerState::Idle {
                    old(self).state
                } else if old(self).paused {
                    PlayerState::Paused
                } else if m.data == Some(false) {
                    PlayerState::Playing
                } else {
                    PlayerState::Buffering
                })
            },
            // end of a file
            text_is(m.event, "end-file"@) && text_is(m.reason, "error"@) ==> {
                &&& final(self).state == PlayerState::Error
                &&& final(self).error matches Some(e) && e@ == stream_error_text(m.file_error)
                &&& final(self).paused == old(self).paused
            },
            text_is(m.event, "end-file"@) && text_is(m.reason, "eof"@) ==> {
                &&& final(self).state == PlayerState::Idle
                &&& final(self).error == old(self).error
                &&& final(self).paused == old(self).paused
            },
            // anything else changes nothing
            !text_is(m.event, "start-file"@) && !(text_is(m.event, "property-change"@) && (
            text_is(m.name, "pause"@) || text_is(m.name, "core-idle"@))) && !(text_is(
                m.event,
                "end-file"@,
            ) && (text_is(m.reason, "error"@) || text_is(m.reason, "eof"@))) ==> {
                &&& final(self).state == old(self).state
                &&& final(self).error == old(self).error
                &&& final(self).paused == old(self).paused
            },
    {
        proof {
            reveal_strlit("client-message");
            reveal_strlit("start-file");
            reveal_strlit("property-change");
            reveal_strlit("end-file");
            reveal_strlit("pause");
            reveal_strlit("core-idle");
            reveal_strlit("error");
            reveal_strlit("eof");
            reveal_strlit("radiome-previous");
            reveal_strlit("radiome-next");
            assert("client-message"@.len() == 14);
            assert("start-file"@.len() == 10);
            assert("property-change"@.len() == 15);
            assert("end-file"@.len() == 8);
            assert("pause"@.len() == 5);
            assert("core-idle"@.len() == 9);
            assert("error"@.len() == 5);
            assert("eof"@.len() == 3);
            assert("radiome-previous"@.len() == 16);
            assert("radiome-next"@.len() == 12);
        }
        if text_eq(&m.event, "client-message") {
            if text_eq(&m.first_arg, "radiome-previous") {
                self.media.push(-1);
            } else if text_eq(&m.first_arg, "radiome-next") {
                self.media.push(1);
            }
            false
        } else if text_eq(&m.event, "start-file") {
            self.state = PlayerState::Buffering;
            self.error = None;
            true
        } else if text_eq(&m.event, "property-change") {
            if text_eq(&m.name, "pause") {
                self.paused = match m.data {
                    Some(b) => b,
                    None => false,
                };
                if self.paused {
                    self.state = PlayerState::Paused;
                } else if self.state == PlayerState::Paused {
                    self.state = PlayerState::Buffering;
                }
            } else if text_eq(&m.name, "core-idle") && !(self.state == PlayerState::Error
                || self.state == PlayerState::Idle) {
                self.state = if self.paused {
                    PlayerState::Paused
                } else if m.data == Some(false) {
                    PlayerState::Playing
                } else {
                    PlayerState::Buffering
                };
            }
            false
        } else if text_eq(&m.event, "end-file") && text_eq(&m.reason, "error") {
            self.state = PlayerState::Error;
            let mut text = "Stream unavailable: ".to_owned();
            match &m.file_error {
                Some(e) => text.append(e.as_str()),
                None => text.append("mpv error"),
            }
            self.error = Some(text);
            false
        } else if text_eq(&m.event, "end-file") && text_eq(&m.reason, "eof") {
            self.state = PlayerState::Idle;
            false
        } else {
            false
        }
    }
}

/// The complete lines (each with its newline) at the front of `buffer`; what
/// follows the last newline stays in `buffer`.
pub fn take_lines(buffer: &mut Vec<u8>) -> (lines: Vec<Vec<u8>>)
    ensures
        lines_concat(lines@) + final(buffer)@ == old(buffer)@,
        forall|i: int| 0 <= i < lines@.len() ==> is_line(#[trigger] lines@[i]@),
        forall|i: int| 0 <= i < final(buffer)@.len() ==> final(buffer)@[i] != 10u8,
{
    let mut lines: Vec<Vec<u8>> = Vec::new();
    let mut start: usize = 0;
    let mut i: usize = 0;
    let ghost all = buffer@;
    let n = buffer.len();
    while i < n
        invariant
            buffer@ == all,
            n == all.len(),
            start <= i <= all.len(),
            lines_concat(lines@) == all.subrange(0, start as int),
            forall|k: int| 0 <= k < lines@.len() ==> is_line(#[trigger] lines@[k]@),
            forall|k: int| start <= k < i ==> all[k] != 10u8,
        decreases all.len() - i,
    {
        if buffer[i] == 10u8 {
            let mut line: Vec<u8> = Vec::new();
            let mut j = start;
            while j <= i
                invariant
                    buffer@ == all,
                    n == all.len(),
                    start <= j <= i + 1,
                    i < all.len(),
                    line@ == all.subrange(start as int, j as int),
                decreases i + 1 - j,
            {
                line.push(buffer[j]);
                j += 1;
                assert(line@ =~= all.subrange(start as int, j as int));
            }
            let ghost before = lines@;
            lines.push(line);
            proof {
                assert(lines@.drop_last() =~= before);
                assert(all.subrange(0, (i + 1) as int) =~= all.subrange(0, start as int) + all.subrange(start as int, (i + 1) as int));
                let l = all.subrange(start as int, (i + 1) as int);
                assert(l.last() == 10u8);
                assert forall|k: int| 0 <= k < l.len() - 1 implies l[k] != 10u8 by {
                    assert(l[k] == all[start + k]);
                }
            }
            start = i + 1;
        }
        i += 1;
    }
    let mut rest: Vec<u8> = Vec::new();
    let mut j = start;
    while j < buffer.len()
        invariant
            buffer@ == all,
            start <= j <= all.len(),
            rest@ == all.subrange(start as int, j as int),
        decreases all.len() - j,
    {
        rest.push(buffer[j]);
        j += 1;
        assert(rest@ =~= all.subrange(start as int, j as int));
    }
    proof {
        assert(all =~= all.subrange(0, start as int) + all.subrange(start as int, all.len() as int));
        assert forall|k: int| 0 <= k < rest@.len() implies rest@[k] != 10u8 by {
            assert(rest@[k] == all[start + k]);
        }
    }
    *buffer = rest;
    lines
}

/// A line: bytes without a newline, then a newline.
pub open spec fn is_line(l: Seq<u8>) -> bool {
    &&& l.len() > 0
    &&& l.last() == 10u8
    &&& forall|k: int| 0 <= k < l.len() - 1 ==> l[k] != 10u8
}

/// The lines one after another.
pub open spec fn lines_concat(lines: Seq<Vec<u8>>) -> Seq<u8>
    decreases lines.len(),
{
    if lines.len() == 0 {
        Seq::empty()
    } else {
        lines_concat(lines.drop_last()) + lines.last()@
    }
}

} // verus!
