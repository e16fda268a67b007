//! Cross-instance run coordination.
//!
//! Several independent runners may try to collect the same timetable. Before
//! doing any work, a runner polls a shared status record; a fresh record
//! saying another run is in flight or already succeeded aborts the local run,
//! while a fresh failure report or a stale record lets it proceed. This
//! protocol is advisory, not a distributed lock: two runs that both decide
//! to proceed within the same window may still both do the work, and the
//! last archive write wins. That race is an accepted limitation.
//!
//! Fetching and publishing the record is plain I/O and stays with the
//! caller; this module decides, and renders the record's JSON wire form.

use vstd::prelude::*;
use vstd::utf8::encode_utf8;

verus! {

/// Lifecycle state of one collection run, as published to the shared record.
#[derive(Clone, PartialEq, Eq, Debug)]
pub enum State {
    /// The run finished and the archive was saved.
    SUCCESS,
    /// The run failed; the message names the failing stage.
    ERROR(String),
    /// The run has started and is still in flight.
    STARTED,
}

/// Mathematical value of a [`State`].
pub enum StateView {
    Success,
    Error(Seq<char>),
    Started,
}

impl View for State {
    type V = StateView;

    open spec fn view(&self) -> StateView {
        match self {
            State::SUCCESS => StateView::Success,
            State::ERROR(msg) => StateView::Error(msg@),
            State::STARTED => StateView::Started,
        }
    }
}

impl DeepView for State {
    type V = StateView;

    open spec fn deep_view(&self) -> StateView {
        self.view()
    }
}

/// The shared coordination record: a run state together with the UTC time it
/// was set, in seconds since the Unix epoch.
#[derive(Clone, PartialEq, Eq, Debug)]
pub struct ReportedState {
    /// The published run state.
    pub state: State,
    /// When the state was set, seconds since the Unix epoch (UTC).
    pub timestamp: i64,
}

/// Mathematical value of a [`ReportedState`].
#[verifier::ext_equal]
pub struct ReportedStateView {
    pub state: StateView,
    pub timestamp: int,
}

impl View for ReportedState {
    type V = ReportedStateView;

    open spec fn view(&self) -> ReportedStateView {
        ReportedStateView { state: self.state@, timestamp: self.timestamp as int }
    }
}

impl DeepView for ReportedState {
    type V = ReportedStateView;

    open spec fn deep_view(&self) -> ReportedStateView {
        self.view()
    }
}

/// How long a published record blocks other runs, in seconds.
pub const FRESH_WINDOW_SECS: i64 = 3600;

/// A record set at `timestamp` still counts at `now`.
pub open spec fn is_fresh(timestamp: int, now: int) -> bool {
    timestamp + FRESH_WINDOW_SECS > now
}

/// What the preflight check decides for this run.
#[derive(Clone, Copy, PartialEq, Eq, Structural, Debug)]
pub enum Preflight {
    /// No fresh record blocks the run: do the work.
    Proceed,
    /// A fresh record reports a failure elsewhere: do the work anyway, after
    /// reporting the remote error for visibility.
    ProceedDespiteRemoteError,
    /// A fresh record says another run is in flight: do nothing.
    AbortAlreadyRunning,
    /// A fresh record says another run already finished this period: do
    /// nothing.
    AbortAlreadyDone,
}

/// The preflight decision. `None` stands for "no information": the endpoint
/// is not configured, unreachable, or its answer was unusable — all of which
/// fail open. A fresh `Started` or `Success` record aborts the run; a fresh
/// `Error` record or a stale record of any kind lets it proceed.
pub open spec fn preflight_spec(remote: Option<ReportedStateView>, now: int) -> Preflight {
    match remote {
        Option::None => Preflight::Proceed,
        Option::Some(r) => if is_fresh(r.timestamp, now) {
            match r.state {
                StateView::Started => Preflight::AbortAlreadyRunning,
                StateView::Success => Preflight::AbortAlreadyDone,
                StateView::Error(_) => Preflight::ProceedDespiteRemoteError,
            }
        } else {
            Preflight::Proceed
        },
    }
}

/// Decides whether this run may proceed, given the remote record (if one
/// could be fetched) and the current time in seconds since the Unix epoch.
pub fn preflight(remote: &Option<ReportedState>, now: i64) -> (d: Preflight)
    ensures
        d == preflight_spec(remote.deep_view(), now as int),
{
    match remote {
        Option::None => Preflight::Proceed,
        Option::Some(r) => {
            let fresh = (r.timestamp as i128) + (FRESH_WINDOW_SECS as i128) > (now as i128);
            if fresh {
                match &r.state {
                    State::STARTED => Preflight::AbortAlreadyRunning,
                    State::SUCCESS => Preflight::AbortAlreadyDone,
                    State::ERROR(_) => Preflight::ProceedDespiteRemoteError,
                }
            } else {
                Preflight::Proceed
            }
        },
    }
}

/// The staleness gate, spelled out: a record saying a run `Started` half an
/// hour ago blocks a new run; the same record set ninety minutes ago does
/// not; and a record of a remote failure never blocks, at any age within the
/// freshness window.
pub proof fn lemma_staleness_gate(msg: Seq<char>, now: int)
    ensures
        preflight_spec(
            Some((ReportedStateView { state: StateView::Started, timestamp: now - 1800 })),
            now,
        ) == Preflight::AbortAlreadyRunning,
        preflight_spec(
            Some((ReportedStateView { state: StateView::Started, timestamp: now - 5400 })),
            now,
        ) == Preflight::Proceed,
        forall|ts: int|
            now - FRESH_WINDOW_SECS < ts ==> #[trigger] preflight_spec(
                Some((ReportedStateView { state: StateView::Error(msg), timestamp: ts })),
                now,
            ) == Preflight::ProceedDespiteRemoteError,
{
}

/// Valid transitions of the run lifecycle: a run only ever moves from
/// `Started` to `Success` or to `Error`; a final state is never left.
pub open spec fn valid_transition(from: StateView, to: StateView) -> bool {
    from is Started && (to is Success || to is Error)
}

/// The state a run publishes once its work has ended: `SUCCESS` for a clean
/// finish, `ERROR` with the failing stage's message otherwise. Either way it
/// is a valid step out of `STARTED`.
pub fn conclude(outcome: &Result<(), String>) -> (s: State)
    ensures
        outcome is Ok ==> s@ is Success,
        outcome matches Err(m) ==> s@ == StateView::Error(m@),
        valid_transition(StateView::Started, s@),
{
    match outcome {
        Result::Ok(_) => State::SUCCESS,
        Result::Err(m) => State::ERROR(m.clone()),
    }
}

/// The ASCII code of the lowercase hexadecimal digit for a value below 16.
pub open spec fn hex_digit_ascii(d: u8) -> u8 {
    if d < 10 {
        (48 + d) as u8
    } else {
        (87 + d) as u8
    }
}

/// How one byte of a string appears inside a JSON string literal: quote and
/// backslash get a backslash escape, the named control characters their
/// short form, any other control character a `\u00XX` escape, and every
/// remaining byte stands for itself.
pub open spec fn json_escape_byte(b: u8) -> Seq<u8> {
    if b == 34 {
        seq![92u8, 34u8]
    } else if b == 92 {
        seq![92u8, 92u8]
    } else if b == 8 {
        seq![92u8, 98u8]
    } else if b == 9 {
        seq![92u8, 116u8]
    } else if b == 10 {
        seq![92u8, 110u8]
    } else if b == 12 {
        seq![92u8, 102u8]
    } else if b == 13 {
        seq![92u8, 114u8]
    } else if b < 32 {
        seq![92u8, 117u8, 48u8, 48u8, hex_digit_ascii(b / 16), hex_digit_ascii(b % 16)]
    } else {
        seq![b]
    }
}

/// A whole byte sequence escaped for a JSON string literal.
pub open spec fn json_escape_bytes(bs: Seq<u8>) -> Seq<u8>
    decreases bs.len(),
{
    if bs.len() == 0 {
        Seq::<u8>::empty()
    } else {
        json_escape_bytes(bs.drop_last()) + json_escape_byte(bs.last())
    }
}

/// The JSON wire form of a run state: a bare string for the plain variants,
/// an object carrying the escaped message for a failure.
pub open spec fn state_json(s: StateView) -> Seq<u8> {
    match s {
        StateView::Success => encode_utf8("\"SUCCESS\""@),
        StateView::Started => encode_utf8("\"STARTED\""@),
        StateView::Error(m) => encode_utf8("{\"ERROR\":\""@) + json_escape_bytes(encode_utf8(m))
            + encode_utf8("\"}"@),
    }
}

/// The JSON wire form of the whole status record, with the timestamp
/// rendered as the caller supplied it (an ISO-8601 UTC string).
pub open spec fn status_json(state: StateView, ts: Seq<char>) -> Seq<u8> {
    encode_utf8("{\"state\":"@) + state_json(state) + encode_utf8(",\"timestamp\":\""@)
        + json_escape_bytes(encode_utf8(ts)) + encode_utf8("\"}"@)
}

/// Appends a literal piece of JSON, unescaped.
fn append_lit(out: &mut Vec<u8>, s: &str)
    ensures
        final(out)@ == old(out)@ + encode_utf8(s@),
{
    out.extend_from_slice(s.as_bytes());
}

fn push_hex_digit(out: &mut Vec<u8>, d: u8)
    requires
        d < 16,
    ensures
        final(out)@ == old(out)@.push(hex_digit_ascii(d)),
{
    if d < 10 {
        out.push(48 + d);
    } else {
        out.push(87 + d);
    }
}

/// Appends the bytes of `s` escaped for a JSON string literal.
fn append_escaped(out: &mut Vec<u8>, s: &str)
    ensures
        final(out)@ == old(out)@ + json_escape_bytes(encode_utf8(s@)),
{
    let bytes = s.as_bytes();
    let n = bytes.len();
    let mut i: usize = 0;
    while i < n
        invariant
            i <= n,
            n == bytes@.len(),
            out@ == old(out)@ + json_escape_bytes(bytes@.take(i as int)),
        decreases n - i,
    {
        let b = bytes[i];
        if b == 34 {
            out.push(92);
            out.push(34);
        } else if b == 92 {
            out.push(92);
            out.push(92);
        } else if b == 8 {
            out.push(92);
            out.push(98);
        } else if b == 9 {
            out.push(92);
            out.push(116);
        } else if b == 10 {
            out.push(92);
            out.push(110);
        } else if b == 12 {
            out.push(92);
            out.push(102);
        } else if b == 13 {
            out.push(92);
            out.push(114);
        } else if b < 32 {
            out.push(92);
            out.push(117);
            out.push(48);
            out.push(48);
            push_hex_digit(out, b / 16);
            push_hex_digit(out, b % 16);
        } else {
            out.push(b);
        }
        proof {
            assert(bytes@.take(i + 1).drop_last() =~= bytes@.take(i as int));
            assert(bytes@.take(i + 1).last() == b);
            assert(out@ =~= old(out)@ + json_escape_bytes(bytes@.take(i + 1)));
        }
        i = i + 1;
    }
    proof {
        assert(bytes@.take(n as int) =~= bytes@);
    }
}

/// Renders the status record to its JSON wire form. The timestamp is the
/// already-rendered ISO-8601 UTC text of the moment the state was set; the
/// message of an `ERROR` state and the timestamp are escaped as JSON
/// demands.
pub fn render_status(state: &State, timestamp_iso: &str) -> (out: Vec<u8>)
    ensures
        out@ == status_json(state@, timestamp_iso@),
{
    let mut out: Vec<u8> = Vec::new();
    append_lit(&mut out, "{\"state\":");
    match state {
        State::SUCCESS => append_lit(&mut out, "\"SUCCESS\""),
        State::STARTED => append_lit(&mut out, "\"STARTED\""),
        State::ERROR(msg) => {
            append_lit(&mut out, "{\"ERROR\":\"");
            append_escaped(&mut out, msg.as_str());
            append_lit(&mut out, "\"}");
        },
    }
    append_lit(&mut out, ",\"timestamp\":\"");
    append_escaped(&mut out, timestamp_iso);
    append_lit(&mut out, "\"}");
    proof {
        assert(out@ =~= status_json(state@, timestamp_iso@));
    }
    out
}

} // verus!
