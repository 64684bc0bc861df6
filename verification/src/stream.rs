//! `/stream/<id>`: a capture over a WebSocket. The watcher gets the log so far,
//! then what is added to it, then one text frame that says how the run went.
//!
//! The program holds the socket: it sends the frames that a step gives it, and
//! hands in what it read of the log and what the watcher sent.
use crate::outside::{base64_text, sha1_digest};
use crate::serve::{
    header_of, header_views, is_run_id, plain, plain_text, valid_id, Request, Response, ResponseView,
};
use crate::store::RunState;
use crate::text::{push_signed, signed_decimal};
use crate::ws::{
    accept_key, encode, frame_bytes, handshake, parse_frame, parsed, Parsed, MAX_MESSAGE, OP_BINARY,
    OP_CLOSE, OP_CONT, OP_PING, OP_PONG, OP_TEXT,
};
use vstd::prelude::*;
use vstd::utf8::encode_utf8;

verus! {

// ------------------------------------------------------------- handshake --

/// How a request for a stream is answered.
pub enum Upgrade {
    Refused(Response),
    /// Send this head; frames follow it.
    Switch(String),
}

pub ghost enum UpgradeView {
    Refused(ResponseView),
    Switch(Seq<char>),
}

impl View for Upgrade {
    type V = UpgradeView;

    open spec fn view(&self) -> UpgradeView {
        match *self {
            Upgrade::Refused(r) => UpgradeView::Refused(r@),
            Upgrade::Switch(head) => UpgradeView::Switch(head@),
        }
    }
}

/// The head that answers a client's key.
pub open spec fn switch_head(key: Seq<char>) -> Seq<char> {
    "HTTP/1.1 101 Switching Protocols\r\nupgrade: websocket\r\nconnection: Upgrade\r\nsec-websocket-accept: "@
        + base64_text(sha1_digest(handshake(key))) + "\r\n\r\n"@
}

/// How a request for the stream of the run `id` is answered, where `known` is
/// whether the store has its record.
pub open spec fn upgrade(
    id: Seq<char>,
    headers: Seq<(Seq<char>, Seq<char>)>,
    known: bool,
) -> UpgradeView {
    if !is_run_id(id) || !known {
        UpgradeView::Refused(plain(404, "no such run"@))
    } else {
        match header_of(headers, "sec-websocket-key"@) {
            Some(key) => UpgradeView::Switch(switch_head(key)),
            None => UpgradeView::Refused(plain(400, "expected a websocket upgrade"@)),
        }
    }
}

/// Answers a request for the stream of the run `id`; `known` is whether the
/// store has its record.
pub fn stream_answer(id: &str, request: &Request, known: bool) -> (res: Upgrade)
    ensures
        res@ == upgrade(id@, header_views(request.headers@), known),
{
    if !valid_id(id) || !known {
        return Upgrade::Refused(plain_text(404, "no such run"));
    }
    match request.header("sec-websocket-key") {
        Some(key) => {
            let mut head = "HTTP/1.1 101 Switching Protocols\r\nupgrade: websocket\r\nconnection: Upgrade\r\nsec-websocket-accept: ".to_owned();
            head.push_str(accept_key(key).as_str());
            head.push_str("\r\n\r\n");
            Upgrade::Switch(head)
        },
        None => Upgrade::Refused(plain_text(400, "expected a websocket upgrade")),
    }
}

// ---------------------------------------------------------------- output --

/// Browsers get the tail of oversized logs, as the viewer does.
pub const REPLAY_MAX: u64 = 16_777_216;

/// `data` in pieces that each fit in a message; none of nothing.
pub open spec fn pieces(data: Seq<u8>) -> Seq<Seq<u8>>
    decreases data.len(),
{
    if data.len() == 0 {
        seq![]
    } else if data.len() <= MAX_MESSAGE {
        seq![data]
    } else {
        seq![data.take(MAX_MESSAGE as int)] + pieces(data.skip(MAX_MESSAGE as int))
    }
}

/// The frames that carry `data`.
pub open spec fn data_frames(data: Seq<u8>) -> Seq<Seq<u8>> {
    pieces(data).map_values(|p: Seq<u8>| frame_bytes(OP_BINARY, p))
}

/// What the last frame says: how the run went, null where it has no exit code.
pub open spec fn done_text(exit: Option<i32>) -> Seq<char> {
    "{\"done\":true,\"exit\":"@ + (match exit {
        Some(code) => signed_decimal(code as int),
        None => "null"@,
    }) + "}"@
}

pub open spec fn done_frame(exit: Option<i32>) -> Seq<u8> {
    frame_bytes(OP_TEXT, encode_utf8(done_text(exit)))
}

/// What to send, in order; how much of the log the watcher has then; and
/// whether that was all.
pub struct Step {
    pub frames: Vec<Vec<u8>>,
    pub sent: u64,
    pub done: bool,
}

pub open spec fn frame_views(v: Seq<Vec<u8>>) -> Seq<Seq<u8>> {
    v.map_values(|f: Vec<u8>| f@)
}

/// The frames of a step: what of `log` was not sent yet and, once the run is
/// over, how it went.
pub open spec fn step_frames(
    sent: nat,
    log: Seq<u8>,
    state: RunState,
    exit: Option<i32>,
) -> Seq<Seq<u8>> {
    let data = data_frames(log.skip(sent as int));
    if state == RunState::Running {
        data
    } else {
        data.push(done_frame(exit))
    }
}

fn push_pieces(frames: &mut Vec<Vec<u8>>, data: &[u8])
    ensures
        frame_views(final(frames)@) == frame_views(old(frames)@) + data_frames(data@),
{
    let ghost had = frame_views(frames@);
    let ghost whole = data@;
    let size: usize = data.len();
    let mut at: usize = 0;
    proof {
        assert(whole.skip(0) =~= whole);
        assert(had + data_frames(whole) =~= frame_views(frames@) + data_frames(whole.skip(0)));
    }
    while at < size
        invariant
            at <= size,
            size == data@.len(),
            whole == data@,
            had + data_frames(whole) == frame_views(frames@) + data_frames(whole.skip(at as int)),
        decreases size - at,
    {
        let left: usize = size - at;
        let n: usize = if left <= MAX_MESSAGE {
            left
        } else {
            MAX_MESSAGE
        };
        let frame = encode(OP_BINARY, &data[at..at + n]);
        proof {
            let rest = whole.skip(at as int);
            let next = whole.skip(at + n);
            assert(whole.subrange(at as int, at + n) =~= rest.take(n as int));
            assert(rest.skip(n as int) =~= next);
            assert(frame@ == frame_bytes(OP_BINARY, rest.take(n as int)));
            if left <= MAX_MESSAGE {
                assert(rest.take(n as int) =~= rest);
                assert(next =~= seq![]);
                assert(pieces(next) =~= seq![]);
            }
            assert(pieces(rest) =~= seq![rest.take(n as int)] + pieces(next));
            assert(data_frames(rest) =~= seq![frame@] + data_frames(next));
            assert(frame_views(frames@.push(frame)) =~= frame_views(frames@).push(frame@));
            assert(frame_views(frames@) + (seq![frame@] + data_frames(next)) =~= frame_views(
                frames@,
            ).push(frame@) + data_frames(next));
        }
        frames.push(frame);
        at = at + n;
    }
    proof {
        assert(whole.skip(at as int) =~= seq![]);
        assert(pieces(whole.skip(at as int)) =~= seq![]);
        assert(data_frames(whole.skip(at as int)) =~= seq![]);
        assert(frame_views(frames@) =~= had + data_frames(whole));
    }
}

/// What to send next. `log` is what was read of the log, of which the watcher
/// has the first `sent` bytes; `state` and `exit` are the run's, read before
/// the log was.
pub fn stream_step(sent: u64, log: &[u8], state: RunState, exit: Option<i32>) -> (res: Step)
    requires
        sent <= log@.len(),
    ensures
        frame_views(res.frames@) == step_frames(sent as nat, log@, state, exit),
        res.sent == log@.len(),
        res.done == (state != RunState::Running),
{
    let mut frames: Vec<Vec<u8>> = Vec::new();
    let size: usize = log.len();
    let from: usize = sent as usize;
    assert(frame_views(frames@) =~= seq![]);
    push_pieces(&mut frames, &log[from..size]);
    assert(log@.subrange(from as int, size as int) =~= log@.skip(sent as int));
    assert(frame_views(frames@) =~= data_frames(log@.skip(sent as int)));
    let done = state != RunState::Running;
    if done {
        let mut text = "{\"done\":true,\"exit\":".to_owned();
        match exit {
            Some(code) => push_signed(&mut text, code),
            None => text.push_str("null"),
        }
        text.push_str("}");
        assert(text@ =~= done_text(exit));
        let frame = encode(OP_TEXT, text.as_str().as_bytes());
        assert(frame_views(frames@.push(frame)) =~= frame_views(frames@).push(frame@));
        frames.push(frame);
    }
    Step { frames, sent: size as u64, done }
}

/// What follows on a turn.
#[derive(Clone, Copy, PartialEq, Eq, Structural, Debug)]
pub enum Next {
    /// Take another turn on the next tick.
    GoOn,
    /// All is said: keep the socket until the watcher leaves.
    Wait,
    /// Hang up.
    Close,
}

/// One turn of a stream: what to send, in order, up to where the watcher then
/// has the log, and what follows.
pub struct Turn {
    pub frames: Vec<Vec<u8>>,
    pub offset: u64,
    pub next: Next,
}

/// The frames of a turn. A run without a record has vanished: it is over, and
/// no one knows how it went.
pub open spec fn turn_frames(
    record: Option<(RunState, Option<i32>)>,
    fresh: Seq<u8>,
) -> Seq<Seq<u8>> {
    match record {
        Some((state, exit)) => step_frames(0, fresh, state, exit),
        None => data_frames(fresh).push(done_frame(None)),
    }
}

pub open spec fn after_turn(record: Option<(RunState, Option<i32>)>) -> Next {
    match record {
        Some((state, _)) => if state == RunState::Running {
            Next::GoOn
        } else {
            Next::Wait
        },
        None => Next::Close,
    }
}

/// Takes a turn. `record` is the state and the exit code by the run's record,
/// read before the log was; none where the run has no record any more.
/// `fresh` is what the log holds from `offset` on.
pub fn stream_turn(record: Option<(RunState, Option<i32>)>, offset: u64, fresh: &[u8]) -> (res: Turn)
    requires
        offset + fresh@.len() <= u64::MAX,
    ensures
        frame_views(res.frames@) == turn_frames(record, fresh@),
        res.offset == offset + fresh@.len(),
        res.next == after_turn(record),
{
    let (state, exit) = match record {
        Some(known) => known,
        None => (RunState::Done, None),
    };
    let step = stream_step(0, fresh, state, exit);
    assert(fresh@.skip(0) =~= fresh@);
    let next = if record.is_none() {
        Next::Close
    } else if step.done {
        Next::Wait
    } else {
        Next::GoOn
    };
    Turn { frames: step.frames, offset: offset + step.sent, next }
}

// ----------------------------------------------------------------- input --

/// What the watcher sent and was not looked at yet, and how long the message
/// is so far of which it sent a part.
pub struct Inbox {
    buf: Vec<u8>,
    part: Option<usize>,
}

#[verifier::ext_equal]
pub ghost struct InboxView {
    pub buf: Seq<u8>,
    pub part: Option<nat>,
}

impl View for Inbox {
    type V = InboxView;

    closed spec fn view(&self) -> InboxView {
        InboxView {
            buf: self.buf@,
            part: match self.part {
                Some(n) => Some(n as nat),
                None => None,
            },
        }
    }
}

/// What a frame of the watcher calls for.
pub enum Heard {
    /// There is no whole frame yet: read on.
    Wait,
    /// Nothing: look at the next frame.
    Nothing,
    /// Send this frame.
    Reply(Vec<u8>),
    /// The watcher leaves.
    Leave,
    /// The watcher broke the protocol: hang up.
    Broken(&'static str),
}

pub ghost enum HeardView {
    Wait,
    Nothing,
    Reply(Seq<u8>),
    Leave,
    Broken(Seq<char>),
}

impl View for Heard {
    type V = HeardView;

    open spec fn view(&self) -> HeardView {
        match *self {
            Heard::Wait => HeardView::Wait,
            Heard::Nothing => HeardView::Nothing,
            Heard::Reply(frame) => HeardView::Reply(frame@),
            Heard::Leave => HeardView::Leave,
            Heard::Broken(why) => HeardView::Broken(why@),
        }
    }
}

impl InboxView {
    /// A message that is only part there is no larger than any is taken.
    pub open spec fn wf(self) -> bool {
        self.part matches Some(n) ==> n <= MAX_MESSAGE
    }

    /// The next frame taken out, and what it calls for: a ping is answered
    /// with a pong, close leaves, and a message in parts must not grow too
    /// large. What a message says does not matter: watchers only watch.
    pub open spec fn heard(self) -> (InboxView, HeardView) {
        match parsed(self.buf) {
            Parsed::Part => (self, HeardView::Wait),
            Parsed::TooLarge => (self, HeardView::Broken("ws frame too large"@)),
            Parsed::Whole { fin, opcode, payload, used } => {
                let next = InboxView { buf: self.buf.skip(used as int), ..self };
                if opcode == OP_PING {
                    (next, HeardView::Reply(frame_bytes(OP_PONG, payload)))
                } else if opcode == OP_CLOSE {
                    (next, HeardView::Leave)
                } else if (opcode == OP_TEXT || opcode == OP_BINARY) && !fin {
                    (InboxView { part: Some(payload.len()), ..next }, HeardView::Nothing)
                } else if opcode == OP_CONT && self.part is Some {
                    let total = self.part.unwrap() + payload.len();
                    if total > MAX_MESSAGE {
                        (next, HeardView::Broken("ws message too large"@))
                    } else if fin {
                        (InboxView { part: None, ..next }, HeardView::Nothing)
                    } else {
                        (InboxView { part: Some(total), ..next }, HeardView::Nothing)
                    }
                } else {
                    (next, HeardView::Nothing)
                }
            },
        }
    }
}

impl Inbox {
    pub fn new() -> (res: Inbox)
        ensures
            res@ == (InboxView { buf: seq![], part: None }),
            res@.wf(),
    {
        let res = Inbox { buf: Vec::new(), part: None };
        assert(res@.buf =~= seq![]);
        res
    }

    /// Takes what was read from the socket.
    pub fn take_in(&mut self, bytes: &[u8])
        ensures
            final(self)@ == (InboxView { buf: old(self)@.buf + bytes@, ..old(self)@ }),
    {
        crate::store::push_bytes(&mut self.buf, bytes);
    }

    /// Looks at the next frame.
    pub fn hear(&mut self) -> (res: Heard)
        requires
            old(self)@.wf(),
        ensures
            (final(self)@, res@) == old(self)@.heard(),
            final(self)@.wf(),
    {
        let whole = match parse_frame(self.buf.as_slice()) {
            Ok(found) => found,
            Err(_) => {
                return Heard::Broken("ws frame too large");
            },
        };
        let (frame, used) = match whole {
            Some(found) => found,
            None => {
                return Heard::Wait;
            },
        };
        proof {
            lemma_whole_fits(self.buf@);
        }
        let ghost had = self.buf@;
        let size: usize = self.buf.len();
        self.buf = crate::store::copy_bytes(&self.buf.as_slice()[used..size]);
        assert(self.buf@ =~= had.skip(used as int));
        let len: usize = frame.payload.len();
        if frame.opcode == OP_PING {
            Heard::Reply(encode(OP_PONG, frame.payload.as_slice()))
        } else if frame.opcode == OP_CLOSE {
            Heard::Leave
        } else if (frame.opcode == OP_TEXT || frame.opcode == OP_BINARY) && !frame.fin {
            self.part = Some(len);
            Heard::Nothing
        } else if frame.opcode == OP_CONT {
            if let Some(n) = self.part {
                if n + len > MAX_MESSAGE {
                    return Heard::Broken("ws message too large");
                }
                self.part = if frame.fin {
                    None
                } else {
                    Some(n + len)
                };
            }
            Heard::Nothing
        } else {
            Heard::Nothing
        }
    }
}

/// A whole frame lies inside the buffer, and its payload inside the limit.
proof fn lemma_whole_fits(buf: Seq<u8>)
    ensures
        parsed(buf) matches Parsed::Whole { payload, used, .. } ==> used <= buf.len()
            && payload.len() <= MAX_MESSAGE && used > 0,
{
}

// ------------------------------------------------------------------ laws --

/// Byte strings, one after the other.
pub open spec fn joined_bytes(parts: Seq<Seq<u8>>) -> Seq<u8>
    decreases parts.len(),
{
    if parts.len() == 0 {
        seq![]
    } else {
        joined_bytes(parts.drop_last()) + parts.last()
    }
}

proof fn lemma_joined(a: Seq<Seq<u8>>, b: Seq<Seq<u8>>)
    ensures
        joined_bytes(a + b) == joined_bytes(a) + joined_bytes(b),
    decreases b.len(),
{
    if b.len() == 0 {
        assert(a + b =~= a);
        assert(joined_bytes(a) + joined_bytes(b) =~= joined_bytes(a));
    } else {
        assert((a + b).drop_last() =~= a + b.drop_last());
        lemma_joined(a, b.drop_last());
        assert(joined_bytes(a + b) =~= joined_bytes(a) + joined_bytes(b));
    }
}

/// Cut into pieces and put together again, nothing is lost; and each piece is
/// one that a client takes as one frame.
pub proof fn law_pieces_make_the_whole(data: Seq<u8>)
    ensures
        joined_bytes(pieces(data)) == data,
        forall|k: int|
            0 <= k < pieces(data).len() ==> 0 < (#[trigger] pieces(data)[k]).len() <= MAX_MESSAGE,
    decreases data.len(),
{
    if data.len() == 0 {
        assert(joined_bytes(pieces(data)) =~= data);
    } else if data.len() <= MAX_MESSAGE {
        assert(seq![data].drop_last() =~= seq![]);
        assert(joined_bytes(seq![data].drop_last()) =~= seq![]);
        assert(joined_bytes(pieces(data)) =~= data);
    } else {
        let head = data.take(MAX_MESSAGE as int);
        let tail = data.skip(MAX_MESSAGE as int);
        law_pieces_make_the_whole(tail);
        lemma_joined(seq![head], pieces(tail));
        assert(seq![head].drop_last() =~= seq![]);
        assert(joined_bytes(seq![head].drop_last()) =~= seq![]);
        assert(joined_bytes(seq![head]) =~= head);
        assert(head + tail =~= data);
        assert forall|k: int| 0 <= k < pieces(data).len() implies 0 < (#[trigger] pieces(
            data,
        )[k]).len() <= MAX_MESSAGE by {
            if k > 0 {
                assert(pieces(data)[k] == pieces(tail)[k - 1]);
            }
        }
    }
}

/// A reading of a stream: what was read of the log, how much of that was sent
/// before, and how the run stood.
pub ghost struct Reading {
    pub sent: nat,
    pub log: Seq<u8>,
    pub state: RunState,
    pub exit: Option<i32>,
}

impl Reading {
    /// The log may have grown since `before`; what was in it then was sent.
    pub open spec fn goes_on_from(self, before: Reading) -> bool {
        self.sent == before.log.len() && self.log.take(before.log.len() as int) == before.log
    }
}

/// Readings of one log that grows, each step sending what the one before had
/// not read; the last, and only the last, finds the run over.
pub open spec fn watched(readings: Seq<Reading>) -> bool {
    &&& readings.len() > 0
    &&& readings[0].sent == 0
    &&& forall|k: int|
        0 <= k < readings.len() ==> {
            let r = #[trigger] readings[k];
            &&& r.sent <= r.log.len()
            &&& (r.state != RunState::Running <==> k == readings.len() - 1)
        }
    &&& forall|j: int, k: int|
        0 <= j && k == j + 1 && k < readings.len() ==> (#[trigger] readings[k]).goes_on_from(
            #[trigger] readings[j],
        )
}

/// All frames of the steps of a stream, in order.
pub open spec fn stream_frames(readings: Seq<Reading>) -> Seq<Seq<u8>>
    decreases readings.len(),
{
    if readings.len() == 0 {
        seq![]
    } else {
        let r = readings.last();
        stream_frames(readings.drop_last()) + step_frames(r.sent, r.log, r.state, r.exit)
    }
}

/// What the data frames of the steps carry, piece by piece.
pub open spec fn stream_pieces(readings: Seq<Reading>) -> Seq<Seq<u8>>
    decreases readings.len(),
{
    if readings.len() == 0 {
        seq![]
    } else {
        let r = readings.last();
        stream_pieces(readings.drop_last()) + pieces(r.log.skip(r.sent as int))
    }
}

/// A watcher gets the log, whole and in order, and then, last and once, how
/// the run went: the frames are the data frames of pieces that make up the
/// log, followed by one done frame.
pub proof fn law_streams_deliver_the_log(readings: Seq<Reading>)
    requires
        watched(readings),
    ensures
        stream_frames(readings) == stream_pieces(readings).map_values(
            |p: Seq<u8>| frame_bytes(OP_BINARY, p),
        ).push(done_frame(readings.last().exit)),
        joined_bytes(stream_pieces(readings)) == readings.last().log,
{
    let part = readings.drop_last();
    let last = readings.last();
    let carry = |p: Seq<u8>| frame_bytes(OP_BINARY, p);
    lemma_running_frames(part);
    lemma_pieces_so_far(readings, readings.len() as int);
    assert(readings.take(readings.len() as int) =~= readings);
    assert(last == readings[readings.len() - 1]);
    let had = stream_pieces(part);
    let more = pieces(last.log.skip(last.sent as int));
    assert((had + more).map_values(carry) =~= had.map_values(carry) + more.map_values(carry));
    assert(stream_frames(readings) =~= stream_pieces(readings).map_values(carry).push(
        done_frame(last.exit),
    ));
}

/// A step needs only what is new of the log: it sends the same frames as one
/// that is given the whole log and how much of it was sent.
pub proof fn law_new_bytes_are_enough(
    sent: nat,
    log: Seq<u8>,
    state: RunState,
    exit: Option<i32>,
)
    requires
        sent <= log.len(),
    ensures
        step_frames(0, log.skip(sent as int), state, exit) == step_frames(sent, log, state, exit),
{
    assert(log.skip(sent as int).skip(0) =~= log.skip(sent as int));
}

proof fn lemma_running_frames(readings: Seq<Reading>)
    requires
        forall|k: int|
            0 <= k < readings.len() ==> (#[trigger] readings[k]).state == RunState::Running,
    ensures
        stream_frames(readings) == stream_pieces(readings).map_values(
            |p: Seq<u8>| frame_bytes(OP_BINARY, p),
        ),
    decreases readings.len(),
{
    let carry = |p: Seq<u8>| frame_bytes(OP_BINARY, p);
    if readings.len() > 0 {
        lemma_running_frames(readings.drop_last());
        let r = readings.last();
        let had = stream_pieces(readings.drop_last());
        let more = pieces(r.log.skip(r.sent as int));
        assert(readings[readings.len() - 1].state == RunState::Running);
        assert((had + more).map_values(carry) =~= had.map_values(carry) + more.map_values(carry));
    } else {
        assert(stream_frames(readings) =~= stream_pieces(readings).map_values(carry));
    }
}

proof fn lemma_pieces_so_far(readings: Seq<Reading>, n: int)
    requires
        watched(readings),
        0 < n <= readings.len(),
    ensures
        joined_bytes(stream_pieces(readings.take(n))) == readings[n - 1].log,
    decreases n,
{
    let now = readings.take(n);
    let r = readings[n - 1];
    let fresh = r.log.skip(r.sent as int);
    assert(now.drop_last() =~= readings.take(n - 1));
    assert(now.last() == r);
    lemma_joined(stream_pieces(readings.take(n - 1)), pieces(fresh));
    law_pieces_make_the_whole(fresh);
    if n == 1 {
        assert(readings.take(0) =~= seq![]);
        assert(joined_bytes(stream_pieces(readings.take(0))) =~= seq![]);
        assert(seq![] + fresh =~= r.log);
    } else {
        lemma_pieces_so_far(readings, n - 1);
        let before = readings[n - 2];
        assert(r.goes_on_from(before));
        assert(before.log + fresh =~= r.log);
    }
}

/// The watcher of a run that vanishes gets what is left of the log and the
/// done frame, as if the run were over without an exit code, and then the
/// server hangs up; it hangs up of itself in no other case.
pub proof fn law_vanished_runs_are_closed(
    record: Option<(RunState, Option<i32>)>,
    fresh: Seq<u8>,
)
    ensures
        turn_frames(None, fresh) == data_frames(fresh).push(done_frame(None)),
        turn_frames(None, fresh) == turn_frames(Some((RunState::Done, None)), fresh),
        after_turn(record) == Next::Close <==> record is None,
{
    assert(fresh.skip(0) =~= fresh);
}

/// A request without a run, or without a WebSocket key, is not upgraded.
pub proof fn law_only_known_runs_are_streamed(
    id: Seq<char>,
    headers: Seq<(Seq<char>, Seq<char>)>,
    known: bool,
)
    ensures
        upgrade(id, headers, known) is Switch <==> is_run_id(id) && known && header_of(
            headers,
            "sec-websocket-key"@,
        ) is Some,
{
}

/// A ping is answered with a pong that carries the same payload.
pub proof fn law_pings_are_answered(inbox: InboxView)
    ensures
        parsed(inbox.buf) matches Parsed::Whole { opcode, payload, used, .. } ==> (opcode == OP_PING
            ==> inbox.heard().1 == HeardView::Reply(frame_bytes(OP_PONG, payload))
            && inbox.heard().0.buf == inbox.buf.skip(used as int)),
{
}

} // verus!
