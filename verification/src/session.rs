//! The per-connection session state machine.
//!
//! One session owns one connection to one endpoint for its whole lifetime: it
//! acquires the connection, sends every outbound line in order, then listens,
//! classifying each inbound text frame and applying the termination policy.
//! The machine itself is pure: the caller performs the transport work that
//! `next_action` names and reports what happened as a `SessionEvent`, and
//! `step` answers with the next state and at most one emitted outcome.

use vstd::prelude::*;
use crate::envelope::Response;
use crate::envelope::spec_classify;

verus! {

/// Immutable per-invocation configuration, resolved once and shared read-only
/// by every session.
#[derive(Clone, Copy)]
pub struct Config {
    /// Read deadline in milliseconds, applied only outside streaming mode.
    pub connect_timeout: u64,
    /// Keep each connection open instead of closing on the first terminal
    /// signal.
    pub stream: bool,
    /// Suppress the output that an end-of-stored-events signal would emit.
    pub omit_eose: bool,
}

/// Why a session failed. Each kind is reported once, tagged with its
/// endpoint, and is never fatal to the sessions of other endpoints.
#[derive(Clone, Copy, Debug, PartialEq, Eq, Structural)]
pub enum FailureKind {
    /// The endpoint address was malformed; the session never started.
    UrlParseError,
    /// Connecting or handshaking with the endpoint failed.
    ConnectError,
    /// Sending one outbound line failed.
    WriteError,
    /// Reading an inbound message failed for a reason other than the
    /// deadline.
    TransportError,
    /// No inbound message arrived before the configured deadline.
    TimeoutError,
    /// An inbound message was not text.
    UnsupportedFrame,
    /// An inbound text message matched no known tag.
    UnsupportedEnvelope,
}

/// What one attempted read of the connection produced.
#[derive(Debug, Clone, PartialEq)]
pub enum ReadEvent {
    /// A text message arrived.
    Text(String),
    /// A control ping arrived; the caller answers it with a pong.
    Ping,
    /// A message arrived that is not text.
    NonText,
    /// The read deadline passed with no message.
    TimedOut,
    /// The read failed for any other transport reason.
    Failed,
}

/// One observation the transport driver reports back to the machine.
#[derive(Debug, Clone, PartialEq)]
pub enum SessionEvent {
    /// The endpoint address could not be parsed.
    AddressInvalid,
    /// A connection to the endpoint was acquired.
    ConnectSucceeded,
    /// Acquiring the connection failed.
    ConnectFailed,
    /// The current outbound line was written.
    WriteSucceeded,
    /// Writing the current outbound line failed.
    WriteFailed,
    /// One read completed with the given result.
    Frame(ReadEvent),
    /// The close frame was sent, or sending it failed; the result is
    /// deliberately ignored.
    CloseAttempted,
}

/// Where a session stands.
#[derive(Debug, Clone, Copy, PartialEq, Eq, Structural)]
pub enum SessionState {
    /// Acquiring the connection.
    Connecting,
    /// Writing outbound line `next_line`.
    Sending { next_line: usize },
    /// Reading inbound messages.
    Listening,
    /// Sending a best-effort close frame.
    Closing,
    /// Terminal; nothing further happens.
    Closed,
}

/// One outcome a session hands to the fan-in stage: a successful payload or a
/// failure, either way tagged with the endpoint it came from.
#[derive(Debug, Clone, PartialEq)]
pub enum SessionOutcome {
    Success { endpoint: String, payload: String },
    Failure { endpoint: String, kind: FailureKind },
}

/// What a session emits for one event, before the endpoint tag is attached.
#[derive(Debug, Clone, PartialEq)]
pub enum Emission {
    Success(String),
    Failure(FailureKind),
}

/// The transport work the driver must perform next in a given state.
#[derive(Debug, Clone, Copy, PartialEq, Eq, Structural)]
pub enum SessionAction {
    /// Parse the address and acquire the connection.
    Connect,
    /// Write the outbound line with the given index.
    SendLine(usize),
    /// Read one inbound message, under the deadline that `read_deadline`
    /// gives.
    ReadFrame,
    /// Send a best-effort close frame.
    SendClose,
    /// The session is over.
    Stop,
}

/// The result of one step: the successor state and at most one emission.
#[derive(Debug, Clone, PartialEq)]
pub struct Step {
    pub next: SessionState,
    pub emit: Option<Emission>,
}

/// What the termination policy decides for one classified envelope: what to
/// emit, and whether to leave the listening state for the close handshake.
#[derive(Debug, Clone, PartialEq)]
pub struct Decision {
    pub emit: Option<Emission>,
    pub close: bool,
}

/// The termination policy, per classified envelope.
///
/// Events never close the connection by themselves; the four terminal
/// signals close it only outside streaming mode; an end-of-stored-events
/// signal emits nothing when the configuration suppresses it; an unrecognized
/// envelope is reported as a failure but leaves the session listening.
pub open spec fn spec_apply_envelope(env: Response, config: Config) -> Decision {
    match env {
        Response::Event(t) => Decision { emit: Some(Emission::Success(t)), close: false },
        Response::Notice(t) => Decision {
            emit: Some(Emission::Success(t)),
            close: !config.stream,
        },
        Response::Okay(t) => Decision { emit: Some(Emission::Success(t)), close: !config.stream },
        Response::Count(t) => Decision { emit: Some(Emission::Success(t)), close: !config.stream },
        Response::EOSE(t) => Decision {
            emit: if !config.omit_eose {
                Some(Emission::Success(t))
            } else {
                None
            },
            close: !config.stream,
        },
        Response::Unsupported(_) => Decision {
            emit: Some(Emission::Failure(FailureKind::UnsupportedEnvelope)),
            close: false,
        },
    }
}

/// Apply the termination policy to one classified envelope.
pub fn apply_envelope(env: Response, config: &Config) -> (d: Decision)
    ensures
        d == spec_apply_envelope(env, *config),
{
    match env {
        Response::Event(t) => Decision { emit: Some(Emission::Success(t)), close: false },
        Response::Notice(t) => Decision {
            emit: Some(Emission::Success(t)),
            close: !config.stream,
        },
        Response::Okay(t) => Decision { emit: Some(Emission::Success(t)), close: !config.stream },
        Response::Count(t) => Decision { emit: Some(Emission::Success(t)), close: !config.stream },
        Response::EOSE(t) => Decision {
            emit: if !config.omit_eose {
                Some(Emission::Success(t))
            } else {
                None
            },
            close: !config.stream,
        },
        Response::Unsupported(_) => Decision {
            emit: Some(Emission::Failure(FailureKind::UnsupportedEnvelope)),
            close: false,
        },
    }
}

/// How the listening state answers one read result.
///
/// Text is classified and handed to the termination policy; a ping is
/// answered in kind by the driver and changes nothing; a non-text frame, a
/// passed deadline and a broken read each emit one failure and end the
/// session at once, with no close handshake.
pub open spec fn spec_frame_step(f: ReadEvent, config: Config) -> Step {
    match f {
        ReadEvent::Text(t) => {
            let d = spec_apply_envelope(spec_classify(t), config);
            Step {
                next: if d.close {
                    SessionState::Closing
                } else {
                    SessionState::Listening
                },
                emit: d.emit,
            }
        },
        ReadEvent::Ping => Step { next: SessionState::Listening, emit: None },
        ReadEvent::NonText => Step {
            next: SessionState::Closed,
            emit: Some(Emission::Failure(FailureKind::UnsupportedFrame)),
        },
        ReadEvent::TimedOut => Step {
            next: SessionState::Closed,
            emit: Some(Emission::Failure(FailureKind::TimeoutError)),
        },
        ReadEvent::Failed => Step {
            next: SessionState::Closed,
            emit: Some(Emission::Failure(FailureKind::TransportError)),
        },
    }
}

/// Answer one read result while listening.
pub fn frame_step(f: ReadEvent, config: &Config) -> (r: Step)
    ensures
        r == spec_frame_step(f, *config),
{
    match f {
        ReadEvent::Text(t) => {
            let d = apply_envelope(Response::from_string(t), config);
            Step {
                next: if d.close {
                    SessionState::Closing
                } else {
                    SessionState::Listening
                },
                emit: d.emit,
            }
        },
        ReadEvent::Ping => Step { next: SessionState::Listening, emit: None },
        ReadEvent::NonText => Step {
            next: SessionState::Closed,
            emit: Some(Emission::Failure(FailureKind::UnsupportedFrame)),
        },
        ReadEvent::TimedOut => Step {
            next: SessionState::Closed,
            emit: Some(Emission::Failure(FailureKind::TimeoutError)),
        },
        ReadEvent::Failed => Step {
            next: SessionState::Closed,
            emit: Some(Emission::Failure(FailureKind::TransportError)),
        },
    }
}

/// A state is well formed for a batch of `total_lines` outbound lines: while
/// sending, the line about to be written exists.
pub open spec fn wf_state(state: SessionState, total_lines: usize) -> bool {
    state matches SessionState::Sending { next_line } ==> next_line < total_lines
}

/// The full transition function of a session over a batch of `total_lines`
/// outbound lines. An event that cannot occur in the current state is
/// ignored.
pub open spec fn spec_step(
    state: SessionState,
    event: SessionEvent,
    config: Config,
    total_lines: usize,
) -> Step {
    match (state, event) {
        (SessionState::Connecting, SessionEvent::AddressInvalid) => Step {
            next: SessionState::Closed,
            emit: Some(Emission::Failure(FailureKind::UrlParseError)),
        },
        (SessionState::Connecting, SessionEvent::ConnectFailed) => Step {
            next: SessionState::Closed,
            emit: Some(Emission::Failure(FailureKind::ConnectError)),
        },
        (SessionState::Connecting, SessionEvent::ConnectSucceeded) => Step {
            next: if total_lines == 0 {
                SessionState::Listening
            } else {
                SessionState::Sending { next_line: 0 }
            },
            emit: None,
        },
        (SessionState::Sending { next_line }, SessionEvent::WriteSucceeded) => Step {
            next: if next_line + 1 < total_lines {
                SessionState::Sending { next_line: (next_line + 1) as usize }
            } else {
                SessionState::Listening
            },
            emit: None,
        },
        (SessionState::Sending { .. }, SessionEvent::WriteFailed) => Step {
            next: SessionState::Closed,
            emit: Some(Emission::Failure(FailureKind::WriteError)),
        },
        (SessionState::Listening, SessionEvent::Frame(f)) => spec_frame_step(f, config),
        (SessionState::Closing, SessionEvent::CloseAttempted) => Step {
            next: SessionState::Closed,
            emit: None,
        },
        (s, _) => Step { next: s, emit: None },
    }
}

/// Advance the session by one observed event.
///
/// Well-formedness of the state is preserved, and the machine only ever
/// stops after `Closing` or on a failure: every emission of a run is
/// accounted for by the policy in `spec_step`.
pub fn step(
    state: SessionState,
    event: SessionEvent,
    config: &Config,
    total_lines: usize,
) -> (r: Step)
    requires
        wf_state(state, total_lines),
    ensures
        r == spec_step(state, event, *config, total_lines),
        wf_state(r.next, total_lines),
{
    match (state, event) {
        (SessionState::Connecting, SessionEvent::AddressInvalid) => Step {
            next: SessionState::Closed,
            emit: Some(Emission::Failure(FailureKind::UrlParseError)),
        },
        (SessionState::Connecting, SessionEvent::ConnectFailed) => Step {
            next: SessionState::Closed,
            emit: Some(Emission::Failure(FailureKind::ConnectError)),
        },
        (SessionState::Connecting, SessionEvent::ConnectSucceeded) => Step {
            next: if total_lines == 0 {
                SessionState::Listening
            } else {
                SessionState::Sending { next_line: 0 }
            },
            emit: None,
        },
        (SessionState::Sending { next_line }, SessionEvent::WriteSucceeded) => Step {
            next: if next_line + 1 < total_lines {
                SessionState::Sending { next_line: next_line + 1 }
            } else {
                SessionState::Listening
            },
            emit: None,
        },
        (SessionState::Sending { .. }, SessionEvent::WriteFailed) => Step {
            next: SessionState::Closed,
            emit: Some(Emission::Failure(FailureKind::WriteError)),
        },
        (SessionState::Listening, SessionEvent::Frame(f)) => frame_step(f, config),
        (SessionState::Closing, SessionEvent::CloseAttempted) => Step {
            next: SessionState::Closed,
            emit: None,
        },
        (s, _) => Step { next: s, emit: None },
    }
}

/// The transport work owed in each state.
pub open spec fn spec_next_action(state: SessionState) -> SessionAction {
    match state {
        SessionState::Connecting => SessionAction::Connect,
        SessionState::Sending { next_line } => SessionAction::SendLine(next_line),
        SessionState::Listening => SessionAction::ReadFrame,
        SessionState::Closing => SessionAction::SendClose,
        SessionState::Closed => SessionAction::Stop,
    }
}

/// Name the transport work the driver must perform in `state`.
pub fn next_action(state: SessionState) -> (a: SessionAction)
    ensures
        a == spec_next_action(state),
{
    match state {
        SessionState::Connecting => SessionAction::Connect,
        SessionState::Sending { next_line } => SessionAction::SendLine(next_line),
        SessionState::Listening => SessionAction::ReadFrame,
        SessionState::Closing => SessionAction::SendClose,
        SessionState::Closed => SessionAction::Stop,
    }
}

/// The read deadline, in milliseconds: listening reads are bounded only
/// outside streaming mode, where an indefinite wait is the intended
/// behavior.
pub fn read_deadline(config: &Config) -> (r: Option<u64>)
    ensures
        r == if config.stream {
            None::<u64>
        } else {
            Some(config.connect_timeout)
        },
{
    if config.stream {
        None
    } else {
        Some(config.connect_timeout)
    }
}

/// What a listening session does with a finite script of read results: what
/// it emits, how many frames it actually reads, and whether it left the
/// listening state before the script ran out.
#[verifier::ext_equal]
pub struct ListenRun {
    pub out: Seq<Emission>,
    pub consumed: nat,
    pub closed: bool,
}

pub open spec fn emit_seq(e: Option<Emission>) -> Seq<Emission> {
    match e {
        Some(x) => seq![x],
        None => Seq::empty(),
    }
}

/// Fold the listening policy over a script of read results, stopping at the
/// first frame that makes the session leave the listening state.
pub open spec fn spec_listen_run(frames: Seq<ReadEvent>, config: Config) -> ListenRun
    decreases frames.len(),
{
    if frames.len() == 0 {
        ListenRun { out: Seq::empty(), consumed: 0, closed: false }
    } else {
        let s = spec_frame_step(frames[0], config);
        if s.next is Listening {
            let rest = spec_listen_run(frames.drop_first(), config);
            ListenRun {
                out: emit_seq(s.emit) + rest.out,
                consumed: 1 + rest.consumed,
                closed: rest.closed,
            }
        } else {
            ListenRun { out: emit_seq(s.emit), consumed: 1, closed: true }
        }
    }
}

/// A run never reads past its script, and reads all of it exactly when no
/// frame closed the session.
pub proof fn lemma_listen_run_bounds(frames: Seq<ReadEvent>, config: Config)
    ensures
        spec_listen_run(frames, config).consumed <= frames.len(),
        !spec_listen_run(frames, config).closed ==> spec_listen_run(frames, config).consumed
            == frames.len(),
    decreases frames.len(),
{
    if frames.len() > 0 {
        lemma_listen_run_bounds(frames.drop_first(), config);
    }
}

/// Splitting a script: a run over `a + b` is the run over `a`, followed — if
/// nothing in `a` closed the session — by the run over `b`.
pub proof fn lemma_listen_run_append(a: Seq<ReadEvent>, b: Seq<ReadEvent>, config: Config)
    ensures
        ({
            let r = spec_listen_run(a + b, config);
            let ra = spec_listen_run(a, config);
            let rb = spec_listen_run(b, config);
            if ra.closed {
                r =~= ra
            } else {
                r =~= (ListenRun {
                    out: ra.out + rb.out,
                    consumed: ra.consumed + rb.consumed,
                    closed: rb.closed,
                })
            }
        }),
    decreases a.len(),
{
    let r = spec_listen_run(a + b, config);
    let ra = spec_listen_run(a, config);
    let rb = spec_listen_run(b, config);
    if a.len() == 0 {
        assert(a + b =~= b);
        assert(ra.out + rb.out =~= rb.out);
    } else {
        assert((a + b)[0] == a[0]);
        assert((a + b).drop_first() =~= a.drop_first() + b);
        let s = spec_frame_step(a[0], config);
        if s.next is Listening {
            lemma_listen_run_append(a.drop_first(), b, config);
            let ra1 = spec_listen_run(a.drop_first(), config);
            if !ra1.closed {
                assert(emit_seq(s.emit) + (ra1.out + rb.out) =~= (emit_seq(s.emit) + ra1.out)
                    + rb.out);
            }
        }
    }
}

/// Feed a finite script of read results to a listening session: the
/// emissions in order, the number of frames read, and whether the session
/// left the listening state.
pub fn listen_script(frames: Vec<ReadEvent>, config: &Config) -> (r: (Vec<Emission>, usize, bool))
    ensures
        ({
            let lr = spec_listen_run(frames@, *config);
            &&& r.0@ =~= lr.out
            &&& r.1 == lr.consumed
            &&& r.2 == lr.closed
        }),
{
    let ghost orig = frames@;
    let mut rest = frames;
    let n0 = rest.len();
    proof {
        assert(orig.len() == n0);
    }
    let mut out: Vec<Emission> = Vec::new();
    let mut consumed: usize = 0;
    #[verifier::loop_isolation(false)]
    loop
        invariant
            orig.len() <= usize::MAX,
            consumed + rest@.len() == orig.len(),
            rest@ =~= orig.skip(consumed as int),
            ({
                let lr = spec_listen_run(orig, *config);
                let lrest = spec_listen_run(rest@, *config);
                &&& lr.out =~= out@ + lrest.out
                &&& lr.consumed == consumed + lrest.consumed
                &&& lr.closed == lrest.closed
            }),
        decreases rest@.len(),
    {
        if rest.len() == 0 {
            proof {
                let lrest = spec_listen_run(rest@, *config);
                assert(lrest.out =~= Seq::<Emission>::empty());
                assert(lrest.consumed == 0);
                assert(!lrest.closed);
                assert(out@ + Seq::<Emission>::empty() =~= out@);
            }
            return (out, consumed, false);
        }
        let ghost prev = rest@;
        let ghost out_prev = out@;
        let f = rest.remove(0);
        let ghost gf = f;
        let s = frame_step(f, config);
        proof {
            assert(prev.remove(0) =~= prev.drop_first());
            assert(prev[0] == gf);
        }
        consumed = consumed + 1;
        let closing = !matches!(s.next, SessionState::Listening);
        match s.emit {
            Some(e) => out.push(e),
            None => (),
        }
        proof {
            assert(rest@ =~= orig.skip(consumed as int));
            assert(out@ =~= out_prev + emit_seq(s.emit));
            let lrprev = spec_listen_run(prev, *config);
            let lrnext = spec_listen_run(prev.drop_first(), *config);
            if spec_frame_step(gf, *config).next is Listening {
                assert(lrprev.out =~= emit_seq(s.emit) + lrnext.out);
                assert(out_prev + (emit_seq(s.emit) + lrnext.out) =~= (out_prev + emit_seq(s.emit))
                    + lrnext.out);
            }
        }
        if closing {
            return (out, consumed, true);
        }
    }
}

/// Outside streaming mode, once no frame of `rs` has closed the session, a
/// frame that closes it — a terminal reply, a timeout, a broken read — is
/// the last one read: whatever script follows it is never consumed, and only
/// that frame's own emission is appended.
pub proof fn lemma_listen_stops(
    rs: Seq<ReadEvent>,
    f: ReadEvent,
    extra: Seq<ReadEvent>,
    config: Config,
)
    requires
        !spec_listen_run(rs, config).closed,
        !(spec_frame_step(f, config).next is Listening),
    ensures
        ({
            let whole = spec_listen_run(rs + seq![f] + extra, config);
            &&& whole.closed
            &&& whole.consumed == rs.len() + 1
            &&& whole.out =~= spec_listen_run(rs, config).out + emit_seq(
                spec_frame_step(f, config).emit,
            )
        }),
{
    lemma_listen_run_bounds(rs, config);
    let tail = seq![f] + extra;
    assert(tail[0] == f);
    assert(rs + seq![f] + extra =~= rs + tail);
    lemma_listen_run_append(rs, tail, config);
}

/// Outside streaming mode a command result, a notice or a count is terminal:
/// the session emits exactly one success for it, carrying the raw text, and
/// then stops reading.
pub proof fn lemma_nonstream_terminal_reply(
    rs: Seq<ReadEvent>,
    t: String,
    extra: Seq<ReadEvent>,
    config: Config,
)
    requires
        !config.stream,
        !spec_listen_run(rs, config).closed,
        spec_classify(t) is Okay || spec_classify(t) is Notice || spec_classify(t) is Count,
    ensures
        ({
            let whole = spec_listen_run(rs + seq![ReadEvent::Text(t)] + extra, config);
            &&& whole.closed
            &&& whole.consumed == rs.len() + 1
            &&& whole.out =~= spec_listen_run(rs, config).out.push(Emission::Success(t))
        }),
{
    lemma_listen_stops(rs, ReadEvent::Text(t), extra, config);
    assert(spec_listen_run(rs, config).out + seq![Emission::Success(t)] =~= spec_listen_run(
        rs,
        config,
    ).out.push(Emission::Success(t)));
}

/// Outside streaming mode, with end-of-stored-events output suppressed, that
/// signal ends the session silently: nothing is emitted for it and nothing
/// after it is read.
pub proof fn lemma_nonstream_eose_silent(
    rs: Seq<ReadEvent>,
    t: String,
    extra: Seq<ReadEvent>,
    config: Config,
)
    requires
        !config.stream,
        config.omit_eose,
        !spec_listen_run(rs, config).closed,
        spec_classify(t) is EOSE,
    ensures
        ({
            let whole = spec_listen_run(rs + seq![ReadEvent::Text(t)] + extra, config);
            &&& whole.closed
            &&& whole.consumed == rs.len() + 1
            &&& whole.out =~= spec_listen_run(rs, config).out
        }),
{
    lemma_listen_stops(rs, ReadEvent::Text(t), extra, config);
    assert(spec_listen_run(rs, config).out + Seq::<Emission>::empty() =~= spec_listen_run(
        rs,
        config,
    ).out);
}

/// A passed read deadline is reported as exactly one timeout failure, and
/// the session reads nothing further.
pub proof fn lemma_timeout_reported_once(rs: Seq<ReadEvent>, extra: Seq<ReadEvent>, config: Config)
    requires
        !spec_listen_run(rs, config).closed,
    ensures
        ({
            let whole = spec_listen_run(rs + seq![ReadEvent::TimedOut] + extra, config);
            &&& whole.closed
            &&& whole.consumed == rs.len() + 1
            &&& whole.out =~= spec_listen_run(rs, config).out.push(
                Emission::Failure(FailureKind::TimeoutError),
            )
        }),
{
    lemma_listen_stops(rs, ReadEvent::TimedOut, extra, config);
    assert(spec_listen_run(rs, config).out + seq![Emission::Failure(FailureKind::TimeoutError)]
        =~= spec_listen_run(rs, config).out.push(Emission::Failure(FailureKind::TimeoutError)));
}

/// In streaming mode text and pings never end the session: a script of only
/// such frames is read to its end and the session is still listening.
pub proof fn lemma_stream_keeps_listening(rs: Seq<ReadEvent>, config: Config)
    requires
        config.stream,
        forall|i: int| 0 <= i < rs.len() ==> rs[i] is Text || rs[i] is Ping,
    ensures
        !spec_listen_run(rs, config).closed,
        spec_listen_run(rs, config).consumed == rs.len(),
    decreases rs.len(),
{
    if rs.len() > 0 {
        assert(rs[0] is Text || rs[0] is Ping);
        assert(forall|i: int|
            0 <= i < rs.drop_first().len() ==> rs.drop_first()[i] is Text
                || rs.drop_first()[i] is Ping);
        lemma_stream_keeps_listening(rs.drop_first(), config);
    }
}

/// A ping is invisible: wherever one is spliced into a script that has not
/// yet closed the session, the emissions and the final disposition are those
/// of the script without it; only the count of frames read grows by one.
pub proof fn lemma_ping_transparent(a: Seq<ReadEvent>, b: Seq<ReadEvent>, config: Config)
    requires
        !spec_listen_run(a, config).closed,
    ensures
        ({
            let with_ping = spec_listen_run(a + seq![ReadEvent::Ping] + b, config);
            let without = spec_listen_run(a + b, config);
            &&& with_ping.out =~= without.out
            &&& with_ping.closed == without.closed
            &&& with_ping.consumed == without.consumed + 1
        }),
{
    let ping = seq![ReadEvent::Ping];
    assert(ping[0] == ReadEvent::Ping);
    assert(ping.drop_first() =~= Seq::<ReadEvent>::empty());
    let rping = spec_listen_run(ping, config);
    assert(spec_listen_run(ping.drop_first(), config).consumed == 0);
    assert(rping.out =~= Seq::<Emission>::empty());
    assert(rping.consumed == 1);
    assert(!rping.closed);
    lemma_listen_run_append(a, ping, config);
    lemma_listen_run_append(a + ping, b, config);
    lemma_listen_run_append(a, b, config);
    let ra = spec_listen_run(a, config);
    let rb = spec_listen_run(b, config);
    assert(spec_listen_run(a + ping, config).out =~= ra.out + rping.out);
    assert(ra.out + rping.out =~= ra.out);
    assert(spec_listen_run(a + ping + b, config).out =~= spec_listen_run(a + ping, config).out
        + rb.out);
    assert(spec_listen_run(a + ping, config).out + rb.out =~= ra.out + rb.out);
    assert(spec_listen_run(a + b, config).out =~= ra.out + rb.out);
}

/// Run a whole session from its first state over a finite script of
/// observed events: the emissions in order and the state it ends in. The
/// fold stops once the session is closed; later events are dead.
pub open spec fn spec_session_run(
    state: SessionState,
    events: Seq<SessionEvent>,
    config: Config,
    total_lines: usize,
) -> (Seq<Emission>, SessionState)
    decreases events.len(),
{
    if state is Closed || events.len() == 0 {
        (Seq::empty(), state)
    } else {
        let s = spec_step(state, events[0], config, total_lines);
        let rest = spec_session_run(s.next, events.drop_first(), config, total_lines);
        (emit_seq(s.emit) + rest.0, rest.1)
    }
}

/// Drive one session over a finite script of observed events, starting from
/// the connecting state.
pub fn session_script(events: Vec<SessionEvent>, config: &Config, total_lines: usize) -> (r: (
    Vec<Emission>,
    SessionState,
))
    ensures
        ({
            let sr = spec_session_run(SessionState::Connecting, events@, *config, total_lines);
            &&& r.0@ =~= sr.0
            &&& r.1 == sr.1
        }),
{
    let ghost orig = events@;
    let mut rest = events;
    let mut out: Vec<Emission> = Vec::new();
    let mut state = SessionState::Connecting;
    #[verifier::loop_isolation(false)]
    loop
        invariant
            wf_state(state, total_lines),
            ({
                let sr = spec_session_run(SessionState::Connecting, orig, *config, total_lines);
                let srest = spec_session_run(state, rest@, *config, total_lines);
                &&& sr.0 =~= out@ + srest.0
                &&& sr.1 == srest.1
            }),
        decreases rest@.len(),
    {
        if rest.len() == 0 {
            proof {
                let srest = spec_session_run(state, rest@, *config, total_lines);
                assert(srest.0 =~= Seq::<Emission>::empty());
                assert(srest.1 == state);
                assert(out@ + Seq::<Emission>::empty() =~= out@);
            }
            return (out, state);
        }
        if matches!(state, SessionState::Closed) {
            proof {
                let srest = spec_session_run(state, rest@, *config, total_lines);
                assert(srest.0 =~= Seq::<Emission>::empty());
                assert(srest.1 == state);
                assert(out@ + Seq::<Emission>::empty() =~= out@);
            }
            return (out, state);
        }
        let ghost prev = rest@;
        let ghost state_prev = state;
        let ghost out_prev = out@;
        let f = rest.remove(0);
        let ghost gf = f;
        let s = step(state, f, config, total_lines);
        state = s.next;
        match s.emit {
            Some(e) => out.push(e),
            None => (),
        }
        proof {
            assert(prev.remove(0) =~= prev.drop_first());
            assert(prev[0] == gf);
            assert(out@ =~= out_prev + emit_seq(s.emit));
            let srprev = spec_session_run(state_prev, prev, *config, total_lines);
            let srnext = spec_session_run(state, prev.drop_first(), *config, total_lines);
            assert(srprev.0 =~= emit_seq(s.emit) + srnext.0);
            assert(out_prev + (emit_seq(s.emit) + srnext.0) =~= (out_prev + emit_seq(s.emit))
                + srnext.0);
        }
    }
}

} // verus!
