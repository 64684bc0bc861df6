//! What holds of streams on the wire: how frames are laid out, how a request
//! for a stream is answered, and what a watcher's frames call for.
use crate::outside::{base64_text, sha1_digest};
use crate::serve::{header_of, is_run_id, BodyView, ResponseView};
use crate::serve_laws::is_word;
use crate::store::RunState;
use crate::store_laws::law_index_bytes_append;
use crate::stream::{
    after_turn, data_frames, done_text, step_frames, switch_head, turn_frames, upgrade, HeardView,
    InboxView, Next, UpgradeView, REPLAY_MAX,
};
use crate::text::{is_space, signed_decimal};
use crate::text_laws::law_what_trimming_leaves;
use crate::tui::viewer::MAX_READ;
use crate::ws::{
    big_endian, big_endian_value, frame_bytes, handshake, header_len, parsed, payload_len, Parsed,
    MAX_MESSAGE, OP_BINARY, OP_CLOSE, OP_CONT, OP_PING, OP_PONG, OP_TEXT,
};
use vstd::prelude::*;
use vstd::utf8::encode_utf8;

verus! {

// ---------------------------------------------------------------- frames --

/// The opcodes are those of the protocol; a message holds at most a mebibyte,
/// and at most sixteen of a log are read.
pub proof fn law_opcodes()
    ensures
        OP_CONT == 0,
        OP_TEXT == 1,
        OP_BINARY == 2,
        OP_CLOSE == 8,
        OP_PING == 9,
        OP_PONG == 10,
        MAX_MESSAGE == 1024 * 1024,
        REPLAY_MAX == 16 * 1024 * 1024,
        MAX_READ == 16 * 1024 * 1024,
{
}

/// A frame starts with a byte that says that it ends its message and what it
/// is, then gives the length of its payload in one byte, or in two or eight
/// more with the most significant first, and then the payload, unmasked.
pub proof fn law_frame_layout(opcode: u8, payload: Seq<u8>)
    requires
        opcode < 16,
        payload.len() < 0x1_0000_0000,
    ensures
        ({
            let frame = frame_bytes(opcode, payload);
            let n = payload.len();
            &&& frame[0] == 128 + opcode
            &&& n < 126 ==> frame[1] == n && frame.skip(2) == payload
            &&& 126 <= n < 65536 ==> frame[1] == 126 && frame[2] * 256 + frame[3] == n && frame.skip(
                4,
            ) == payload
            &&& n >= 65536 ==> {
                &&& frame[1] == 127
                &&& frame[2] == 0 && frame[3] == 0 && frame[4] == 0 && frame[5] == 0
                &&& frame[6] * 0x100_0000 + frame[7] * 0x1_0000 + frame[8] * 0x100 + frame[9] == n
                &&& frame.skip(10) == payload
            }
        }),
{
    let frame = frame_bytes(opcode, payload);
    let n = payload.len();
    reveal_with_fuel(big_endian, 9);
    if n < 126 {
        assert(frame.skip(2) =~= payload);
    } else if n < 65536 {
        let b = big_endian(n, 2);
        assert(b.len() == 2);
        assert(b[1] == (n % 256) as u8 && b[0] == (n / 256 % 256) as u8);
        assert(frame[2] == b[0] && frame[3] == b[1]);
        assert(frame.skip(4) =~= payload);
    } else {
        let b = big_endian(n, 8);
        assert(b.len() == 8);
        let n1 = n / 256;
        let n2 = n1 / 256;
        let n3 = n2 / 256;
        let n4 = n3 / 256;
        assert(n4 == 0);
        assert(b[7] == (n % 256) as u8);
        assert(b[6] == (n1 % 256) as u8);
        assert(b[5] == (n2 % 256) as u8);
        assert(b[4] == (n3 % 256) as u8);
        assert(b[3] == 0 && b[2] == 0 && b[1] == 0 && b[0] == 0);
        assert forall|k: int| 0 <= k < 8 implies frame[2 + k] == #[trigger] b[k] by {}
        assert(frame[2] == b[0] && frame[3] == b[1] && frame[4] == b[2] && frame[5] == b[3]);
        assert(frame[6] == b[4] && frame[7] == b[5] && frame[8] == b[6] && frame[9] == b[7]);
        assert(frame.skip(10) =~= payload);
    }
}

/// A short frame of a client: its first byte says whether it ends its message
/// and what it is, four bytes after the length mask its payload byte by byte,
/// and what follows it is not touched. An unmasked one is read as it stands.
pub proof fn law_client_frames(first: u8, key: Seq<u8>, data: Seq<u8>, rest: Seq<u8>)
    requires
        key.len() == 4,
        data.len() < 126,
    ensures
        ({
            let buf = seq![first, (128 + data.len()) as u8] + key + data + rest;
            &&& parsed(buf) is Whole
            &&& parsed(buf)->fin == (first >= 128)
            &&& parsed(buf)->opcode == first % 16
            &&& parsed(buf)->used == 6 + data.len()
            &&& parsed(buf)->payload.len() == data.len()
            &&& forall|i: int|
                0 <= i < data.len() ==> #[trigger] parsed(buf)->payload[i] == data[i] ^ key[i % 4]
        }),
        ({
            let buf = seq![first, data.len() as u8] + data + rest;
            &&& parsed(buf) is Whole
            &&& parsed(buf)->fin == (first >= 128)
            &&& parsed(buf)->opcode == first % 16
            &&& parsed(buf)->used == 2 + data.len()
            &&& parsed(buf)->payload == data
        }),
{
    let n = data.len() as int;
    let buf = seq![first, (128 + data.len()) as u8] + key + data + rest;
    assert(buf[0] == first && buf[1] == 128 + n);
    assert(header_len(buf) == 2 && payload_len(buf) == n);
    assert(buf.subrange(2, 6) =~= key);
    assert(buf.subrange(6, 6 + n) =~= data);
    let bare = seq![first, data.len() as u8] + data + rest;
    assert(bare[0] == first && bare[1] == n);
    assert(header_len(bare) == 2 && payload_len(bare) == n);
    assert(bare.subrange(2, 2 + n) =~= data);
}

/// A frame of a client that is not all there yet is waited for.
pub proof fn law_frames_are_waited_for(first: u8, key: Seq<u8>, data: Seq<u8>, n: int)
    requires
        key.len() == 4,
        data.len() < 126,
        0 <= n < 6 + data.len(),
    ensures
        parsed((seq![first, (128 + data.len()) as u8] + key + data).take(n)) is Part,
{
    let buf = (seq![first, (128 + data.len()) as u8] + key + data).take(n);
    if n >= 2 {
        assert(buf[1] == 128 + data.len());
        assert(header_len(buf) == 2 && payload_len(buf) == data.len());
    }
}

/// A longer frame of a client gives its length in two bytes more, the most
/// significant first; the mask and the payload follow.
pub proof fn law_longer_client_frames(first: u8, key: Seq<u8>, data: Seq<u8>, rest: Seq<u8>)
    requires
        key.len() == 4,
        126 <= data.len() < 65536,
    ensures
        ({
            let n = data.len() as int;
            let buf = seq![first, 254u8, (n / 256) as u8, (n % 256) as u8] + key + data + rest;
            &&& parsed(buf) is Whole
            &&& parsed(buf)->fin == (first >= 128)
            &&& parsed(buf)->opcode == first % 16
            &&& parsed(buf)->used == 8 + n
            &&& parsed(buf)->payload.len() == n
            &&& forall|i: int|
                0 <= i < n ==> #[trigger] parsed(buf)->payload[i] == data[i] ^ key[i % 4]
        }),
{
    let n = data.len() as int;
    let buf = seq![first, 254u8, (n / 256) as u8, (n % 256) as u8] + key + data + rest;
    let b = buf.subrange(2, 4);
    reveal_with_fuel(big_endian_value, 3);
    assert(buf[0] == first && buf[1] == 254);
    assert(b[0] == (n / 256) as u8 && b[1] == (n % 256) as u8);
    assert(b.drop_last().drop_last() =~= seq![]);
    assert(big_endian_value(b.drop_last().drop_last()) == 0);
    assert(big_endian_value(b.drop_last()) == b[0]);
    assert(big_endian_value(b) == n);
    assert(header_len(buf) == 4 && payload_len(buf) == n);
    assert(buf.subrange(4, 8) =~= key);
    assert(buf.subrange(8, 8 + n) =~= data);
}

/// A frame whose length is given in eight bytes is refused at once where it
/// says that it carries more than a mebibyte, and only there.
pub proof fn law_large_frames_are_refused(buf: Seq<u8>)
    requires
        buf.len() >= 10,
        buf[1] == 127 || buf[1] == 255,
    ensures
        parsed(buf) is TooLarge <==> buf[2] > 0 || buf[3] > 0 || buf[4] > 0 || buf[5] > 0 || buf[6]
            > 0 || buf[7] * 65536 + buf[8] * 256 + buf[9] > 1024 * 1024,
{
    let b = buf.subrange(2, 10);
    reveal_with_fuel(big_endian_value, 9);
    assert(header_len(buf) == 10);
    let b7 = b.drop_last();
    let b6 = b7.drop_last();
    let b5 = b6.drop_last();
    let b4 = b5.drop_last();
    let b3 = b4.drop_last();
    let b2 = b3.drop_last();
    let b1 = b2.drop_last();
    assert(b[0] == buf[2] && b[1] == buf[3] && b[2] == buf[4] && b[3] == buf[5]);
    assert(b[4] == buf[6] && b[5] == buf[7] && b[6] == buf[8] && b[7] == buf[9]);
    assert(b1.drop_last() =~= seq![]);
    assert(big_endian_value(b1.drop_last()) == 0);
    assert(big_endian_value(b1) == b[0]);
    assert(big_endian_value(b2) == big_endian_value(b1) * 256 + b[1]);
    assert(big_endian_value(b3) == big_endian_value(b2) * 256 + b[2]);
    assert(big_endian_value(b4) == big_endian_value(b3) * 256 + b[3]);
    assert(big_endian_value(b5) == big_endian_value(b4) * 256 + b[4]);
    assert(big_endian_value(b6) == big_endian_value(b5) * 256 + b[5]);
    assert(big_endian_value(b7) == big_endian_value(b6) * 256 + b[6]);
    assert(big_endian_value(b) == big_endian_value(b7) * 256 + b[7]);
}

// ------------------------------------------------------------- handshake --

/// A client's key, without the white space around it, is answered with the
/// digest of the key and the protocol's own identifier.
pub proof fn law_handshakes(lead: Seq<char>, key: Seq<char>, tail: Seq<char>)
    requires
        is_word(key),
        forall|i: int| 0 <= i < lead.len() ==> is_space(#[trigger] lead[i]),
        forall|i: int| 0 <= i < tail.len() ==> is_space(#[trigger] tail[i]),
    ensures
        handshake(lead + key + tail) == encode_utf8(
            key + "258EAFA5-E914-47DA-95CA-C5AB0DC85B11"@,
        ),
        switch_head(lead + key + tail)
            == "HTTP/1.1 101 Switching Protocols\r\nupgrade: websocket\r\nconnection: Upgrade\r\nsec-websocket-accept: "@
            + base64_text(
            sha1_digest(encode_utf8(key + "258EAFA5-E914-47DA-95CA-C5AB0DC85B11"@)),
        ) + "\r\n\r\n"@,
{
    assert(!is_space(key[0]));
    assert(!is_space(key[key.len() - 1]));
    law_what_trimming_leaves(lead, key, tail);
    law_index_bytes_append(key, "258EAFA5-E914-47DA-95CA-C5AB0DC85B11"@);
}

/// A request for a stream is refused with 404 where the run is not known or
/// is no run at all, and with 400 where it has no key; else it is answered
/// with the head for its key.
pub proof fn law_stream_answers(id: Seq<char>, headers: Seq<(Seq<char>, Seq<char>)>, known: bool)
    ensures
        !is_run_id(id) || !known ==> upgrade(id, headers, known) == UpgradeView::Refused(
            ResponseView {
                status: 404,
                mime: "text/plain"@,
                body: BodyView::Text("no such run"@),
            },
        ),
        is_run_id(id) && known && header_of(headers, "sec-websocket-key"@) is None ==> upgrade(
            id,
            headers,
            known,
        ) == UpgradeView::Refused(
            ResponseView {
                status: 400,
                mime: "text/plain"@,
                body: BodyView::Text("expected a websocket upgrade"@),
            },
        ),
        is_run_id(id) && known ==> (header_of(headers, "sec-websocket-key"@) matches Some(key)
            ==> upgrade(id, headers, known) == UpgradeView::Switch(switch_head(key))),
{
}

// ---------------------------------------------------------------- output --

/// The last frame says that the run is over and with which code it left, or
/// null where it left none.
pub proof fn law_done_frames(code: i32)
    ensures
        done_text(Some(code)) == "{\"done\":true,\"exit\":"@ + signed_decimal(code as int) + "}"@,
        done_text(None) == "{\"done\":true,\"exit\":null}"@,
{
    reveal_strlit("{\"done\":true,\"exit\":");
    reveal_strlit("null");
    reveal_strlit("}");
    reveal_strlit("{\"done\":true,\"exit\":null}");
    assert(done_text(None) =~= "{\"done\":true,\"exit\":null}"@);
}

/// While a run goes on, a step sends what of the log was not sent yet, in
/// binary frames of at most a mebibyte; once it is over, one text frame more
/// that says so.
pub proof fn law_steps(had: Seq<u8>, fresh: Seq<u8>, exit: Option<i32>)
    ensures
        step_frames(had.len(), had + fresh, RunState::Running, exit) == data_frames(fresh),
        step_frames(had.len(), had + fresh, RunState::Done, exit) == data_frames(fresh).push(
            frame_bytes(1, encode_utf8(done_text(exit))),
        ),
        step_frames(had.len(), had + fresh, RunState::Died, exit) == step_frames(
            had.len(),
            had + fresh,
            RunState::Done,
            exit,
        ),
        fresh.len() == 0 ==> data_frames(fresh).len() == 0,
        0 < fresh.len() <= 1024 * 1024 ==> data_frames(fresh) == seq![frame_bytes(2, fresh)],
        after_turn(Some((RunState::Running, exit))) == Next::GoOn,
        after_turn(Some((RunState::Done, exit))) == Next::Wait,
        after_turn(Some((RunState::Died, exit))) == Next::Wait,
        turn_frames(Some((RunState::Running, exit)), fresh) == data_frames(fresh),
{
    assert((had + fresh).skip(had.len() as int) =~= fresh);
    assert(fresh.skip(0) =~= fresh);
    if 0 < fresh.len() <= 1024 * 1024 {
        assert(data_frames(fresh) =~= seq![frame_bytes(2, fresh)]);
    }
}

/// A large reading is sent a mebibyte at a time.
pub proof fn law_large_readings(front: Seq<u8>, rest: Seq<u8>)
    requires
        front.len() == 1024 * 1024,
        rest.len() > 0,
    ensures
        data_frames(front + rest) == seq![frame_bytes(2, front)] + data_frames(rest),
{
    let all = front + rest;
    assert(all.take(1024 * 1024int) =~= front);
    assert(all.skip(1024 * 1024int) =~= rest);
    assert(data_frames(all) =~= seq![frame_bytes(2, front)] + data_frames(rest));
}

// ----------------------------------------------------------------- input --

/// What a watcher's frame calls for: a ping is answered, close leaves, and
/// what a watcher says is passed over; each frame is taken out of what was
/// read. Half a frame waits for the rest of it.
pub proof fn law_watchers_are_heard(inbox: InboxView)
    ensures
        parsed(inbox.buf) is Part ==> inbox.heard() == (inbox, HeardView::Wait),
        parsed(inbox.buf) is TooLarge ==> inbox.heard().1 == HeardView::Broken(
            "ws frame too large"@,
        ),
        parsed(inbox.buf) matches Parsed::Whole { fin, opcode, payload, used } ==> {
            let (next, heard) = inbox.heard();
            &&& next.buf == inbox.buf.skip(used as int)
            &&& opcode == 9 ==> heard == HeardView::Reply(frame_bytes(10, payload)) && next.part
                == inbox.part
            &&& opcode == 8 ==> heard is Leave
            &&& (opcode == 1 || opcode == 2) && fin ==> heard is Nothing && next.part == inbox.part
            &&& (opcode == 1 || opcode == 2) && !fin ==> heard is Nothing && next.part == Some(
                payload.len(),
            )
            &&& opcode == 10 ==> heard is Nothing && next.part == inbox.part
            &&& opcode == 0 && inbox.part is None ==> heard is Nothing && next.part is None
            &&& opcode == 0 ==> (inbox.part matches Some(had) ==> {
                &&& had + payload.len() > 1024 * 1024 ==> heard == HeardView::Broken(
                    "ws message too large"@,
                )
                &&& had + payload.len() <= 1024 * 1024 && fin ==> heard is Nothing && next.part is None
                &&& had + payload.len() <= 1024 * 1024 && !fin ==> heard is Nothing && next.part
                    == Some(had + payload.len())
            })
        },
{
}

} // verus!
