//! Just enough WebSocket (RFC 6455) for the lifeguard: the answer to a
//! client's handshake, unmasked frames to send, and a parser for the masked
//! frames of a client, so that ping, pong and close can be honored.
use crate::outside::{base64, base64_text, sha1, sha1_digest};
use crate::store::push_bytes;
use crate::text::{trim, trimmed};
use vstd::prelude::*;
use vstd::utf8::encode_utf8;

verus! {

/// Largest client frame we bother with; watchers only send pongs and
/// (one day) input. Anything bigger is a bug or an attack.
pub const MAX_MESSAGE: usize = 1_048_576;

/// More of the message that an earlier frame began.
pub const OP_CONT: u8 = 0x0;

pub const OP_TEXT: u8 = 0x1;

pub const OP_BINARY: u8 = 0x2;

pub const OP_CLOSE: u8 = 0x8;

pub const OP_PING: u8 = 0x9;

pub const OP_PONG: u8 = 0xA;

/// What is hashed for a client's key: the key without the white space around
/// it, and the well-known GUID.
pub open spec fn handshake(client_key: Seq<char>) -> Seq<u8> {
    encode_utf8(trim(client_key)) + encode_utf8("258EAFA5-E914-47DA-95CA-C5AB0DC85B11"@)
}

/// Sec-WebSocket-Accept per RFC 6455 §4.2.2:
/// base64(sha1(client_key + the well-known GUID)).
pub fn accept_key(client_key: &str) -> (res: String)
    ensures
        res@ == base64_text(sha1_digest(handshake(client_key@))),
{
    let key = trimmed(client_key);
    let mut data: Vec<u8> = Vec::new();
    push_bytes(&mut data, key.as_str().as_bytes());
    push_bytes(&mut data, "258EAFA5-E914-47DA-95CA-C5AB0DC85B11".as_bytes());
    assert(data@ =~= handshake(client_key@));
    let digest = sha1(data.as_slice());
    base64(digest.as_slice())
}

// --------------------------------------------------------------- frames --

/// One frame: whether it is the last of its message, its opcode and what it
/// carries, unmasked.
pub struct Frame {
    pub fin: bool,
    pub opcode: u8,
    pub payload: Vec<u8>,
}

/// `n` in `width` bytes, the most significant first.
pub open spec fn big_endian(n: nat, width: nat) -> Seq<u8>
    decreases width,
{
    if width == 0 {
        seq![]
    } else {
        big_endian(n / 256, (width - 1) as nat).push((n % 256) as u8)
    }
}

/// The number that bytes stand for, the most significant first.
pub open spec fn big_endian_value(bytes: Seq<u8>) -> nat
    decreases bytes.len(),
{
    if bytes.len() == 0 {
        0
    } else {
        big_endian_value(bytes.drop_last()) * 256 + bytes.last() as nat
    }
}

/// How many numbers fit in `width` bytes.
pub open spec fn byte_power(width: nat) -> nat
    decreases width,
{
    if width == 0 {
        1
    } else {
        256 * byte_power((width - 1) as nat)
    }
}

/// The length of a payload as a frame's header gives it: in the second byte,
/// or in two or eight bytes after it.
pub open spec fn length_bytes(len: nat) -> Seq<u8> {
    if len < 126 {
        seq![len as u8]
    } else if len <= 0xffff {
        seq![126u8] + big_endian(len, 2)
    } else {
        seq![127u8] + big_endian(len, 8)
    }
}

/// The first byte of a frame that ends its message.
pub open spec fn final_byte(opcode: u8) -> u8 {
    if opcode < 128 {
        (128 + opcode) as u8
    } else {
        opcode
    }
}

/// One unmasked frame that is a message of its own.
pub open spec fn frame_bytes(opcode: u8, payload: Seq<u8>) -> Seq<u8> {
    seq![final_byte(opcode)] + length_bytes(payload.len()) + payload
}

fn push_big_endian(out: &mut Vec<u8>, n: u64, width: usize)
    ensures
        final(out)@ == old(out)@ + big_endian(n as nat, width as nat),
    decreases width,
{
    if width > 0 {
        push_big_endian(out, n / 256, width - 1);
        out.push((n % 256) as u8);
    }
    assert(out@ =~= old(out)@ + big_endian(n as nat, width as nat));
}

/// Encodes one unmasked frame that is a message of its own.
pub fn encode(opcode: u8, payload: &[u8]) -> (res: Vec<u8>)
    ensures
        res@ == frame_bytes(opcode, payload@),
{
    let mut out: Vec<u8> = Vec::new();
    out.push(
        if opcode < 128 {
            128 + opcode
        } else {
            opcode
        },
    );
    let len: usize = payload.len();
    if len < 126 {
        out.push(len as u8);
    } else if len <= 0xffff {
        out.push(126);
        push_big_endian(&mut out, len as u64, 2);
    } else {
        out.push(127);
        push_big_endian(&mut out, len as u64, 8);
    }
    assert(out@ =~= seq![final_byte(opcode)] + length_bytes(len as nat));
    push_bytes(&mut out, payload);
    assert(out@ =~= frame_bytes(opcode, payload@));
    out
}

/// What the front of a buffer holds.
pub ghost enum Parsed {
    /// Not a complete frame yet.
    Part,
    /// A frame that says it is larger than any that is taken.
    TooLarge,
    /// A frame, and how many bytes it takes.
    Whole { fin: bool, opcode: u8, payload: Seq<u8>, used: nat },
}

/// How long the header of the frame in `buf` is, its mask left out.
pub open spec fn header_len(buf: Seq<u8>) -> nat {
    if buf[1] % 128 == 126 {
        4
    } else if buf[1] % 128 == 127 {
        10
    } else {
        2
    }
}

/// How long the payload of the frame in `buf` is, by its header.
pub open spec fn payload_len(buf: Seq<u8>) -> nat {
    if header_len(buf) == 2 {
        buf[1] as nat % 128
    } else {
        big_endian_value(buf.subrange(2, header_len(buf) as int))
    }
}

/// `payload` with a mask of four bytes taken off, or put on.
pub open spec fn masked_with(payload: Seq<u8>, key: Seq<u8>) -> Seq<u8> {
    Seq::new(payload.len(), |i: int| payload[i] ^ key[i % 4])
}

/// What the front of `buf` holds.
pub open spec fn parsed(buf: Seq<u8>) -> Parsed {
    if buf.len() < 2 || buf.len() < header_len(buf) {
        Parsed::Part
    } else if payload_len(buf) > MAX_MESSAGE {
        Parsed::TooLarge
    } else {
        let head = header_len(buf);
        let mask: nat = if buf[1] >= 128 {
            4
        } else {
            0
        };
        let used = head + mask + payload_len(buf);
        if buf.len() < used {
            Parsed::Part
        } else {
            let raw = buf.subrange((head + mask) as int, used as int);
            Parsed::Whole {
                fin: buf[0] >= 128,
                opcode: buf[0] % 16,
                payload: if mask == 0 {
                    raw
                } else {
                    masked_with(raw, buf.subrange(head as int, (head + 4) as int))
                },
                used,
            }
        }
    }
}

/// The number that the bytes of `buf` from `from` to `to` stand for.
fn read_big_endian(buf: &[u8], from: usize, to: usize) -> (res: u64)
    requires
        from <= to <= buf@.len(),
        to - from <= 8,
    ensures
        res == big_endian_value(buf@.subrange(from as int, to as int)),
{
    let mut n: u64 = 0;
    let mut i: usize = from;
    proof {
        assert(byte_power(0) == 1);
        assert(buf@.subrange(from as int, from as int) =~= seq![]);
    }
    while i < to
        invariant
            from <= i <= to <= buf@.len(),
            to - from <= 8,
            n == big_endian_value(buf@.subrange(from as int, i as int)),
            n < byte_power((i - from) as nat),
        decreases to - i,
    {
        proof {
            let part = buf@.subrange(from as int, i + 1);
            assert(part.drop_last() =~= buf@.subrange(from as int, i as int));
            assert(part.last() == buf@[i as int]);
            lemma_byte_power((i - from) as nat);
            assert(byte_power((i + 1 - from) as nat) == 256 * byte_power((i - from) as nat));
        }
        n = n * 256 + buf[i] as u64;
        i = i + 1;
    }
    n
}

/// What seven bytes can hold leaves room for one more in 64 bits.
proof fn lemma_byte_power(width: nat)
    requires
        width <= 7,
    ensures
        byte_power(width) <= 0x100_0000_0000_0000,
    decreases width,
{
    reveal_with_fuel(byte_power, 9);
}

/// Takes the mask `key` off `payload`.
fn unmask(payload: &mut Vec<u8>, key: &[u8])
    requires
        key@.len() == 4,
    ensures
        final(payload)@ == masked_with(old(payload)@, key@),
{
    let ghost raw = payload@;
    let mut i: usize = 0;
    while i < payload.len()
        invariant
            i <= payload@.len(),
            payload@.len() == raw.len(),
            key@.len() == 4,
            forall|k: int| 0 <= k < i ==> #[trigger] payload@[k] == raw[k] ^ key@[k % 4],
            forall|k: int| i <= k < raw.len() ==> #[trigger] payload@[k] == raw[k],
        decreases payload@.len() - i,
    {
        let b: u8 = payload[i] ^ key[i % 4];
        payload.set(i, b);
        i = i + 1;
    }
    assert(payload@ =~= masked_with(raw, key@));
}

/// Parses one complete frame from the front of `buf`, unmasking a client's.
/// `Ok(None)` means that there are not enough bytes yet.
pub fn parse_frame(buf: &[u8]) -> (res: Result<Option<(Frame, usize)>, String>)
    ensures
        match parsed(buf@) {
            Parsed::Part => res matches Ok(None),
            Parsed::TooLarge => res matches Err(e) && e@ == "ws frame too large"@,
            Parsed::Whole { fin, opcode, payload, used } => res matches Ok(Some((frame, n)))
                && frame.fin == fin && frame.opcode == opcode && frame.payload@ == payload && n
                == used,
        },
{
    if buf.len() < 2 {
        return Ok(None);
    }
    let short: u8 = buf[1] % 128;
    let masked = buf[1] >= 128;
    let head: usize = if short == 126 {
        4
    } else if short == 127 {
        10
    } else {
        2
    };
    if buf.len() < head {
        return Ok(None);
    }
    let len: u64 = if head == 2 {
        short as u64
    } else {
        read_big_endian(buf, 2, head)
    };
    if len > MAX_MESSAGE as u64 {
        return Err("ws frame too large".to_owned());
    }
    let start: usize = if masked {
        head + 4
    } else {
        head
    };
    let used: usize = start + len as usize;
    if buf.len() < used {
        return Ok(None);
    }
    let mut payload = crate::store::copy_bytes(&buf[start..used]);
    if masked {
        unmask(&mut payload, &buf[head..head + 4]);
    }
    Ok(Some((Frame { fin: buf[0] >= 128, opcode: buf[0] % 16, payload }, used)))
}

// ----------------------------------------------------------------- laws --

/// A number in big-endian bytes reads back.
pub proof fn law_big_endian_reads_back(n: nat, width: nat)
    requires
        n < byte_power(width),
    ensures
        big_endian(n, width).len() == width,
        big_endian_value(big_endian(n, width)) == n,
    decreases width,
{
    if width > 0 {
        assert(n / 256 < byte_power((width - 1) as nat));
        law_big_endian_reads_back(n / 256, (width - 1) as nat);
        let rest = big_endian(n / 256, (width - 1) as nat);
        assert(rest.push((n % 256) as u8).drop_last() =~= rest);
    }
}

/// What was encoded is parsed back whole, whatever follows it; and no proper
/// part of it is taken for a frame.
pub proof fn law_frames_read_back(opcode: u8, payload: Seq<u8>, rest: Seq<u8>, n: int)
    requires
        opcode < 16,
        payload.len() <= MAX_MESSAGE,
        0 <= n < frame_bytes(opcode, payload).len(),
    ensures
        parsed(frame_bytes(opcode, payload) + rest) == (Parsed::Whole {
            fin: true,
            opcode,
            payload,
            used: frame_bytes(opcode, payload).len(),
        }),
        parsed(frame_bytes(opcode, payload).take(n)) is Part,
{
    let whole = frame_bytes(opcode, payload);
    let len = payload.len();
    reveal_with_fuel(byte_power, 9);
    if len <= 0xffff {
        law_big_endian_reads_back(len, 2);
    }
    law_big_endian_reads_back(len, 8);
    let head = 1 + length_bytes(len).len();
    let buf = whole + rest;
    assert(buf[0] == final_byte(opcode));
    assert(buf[1] == length_bytes(len)[0]);
    assert(header_len(buf) == head);
    if head > 2 {
        assert(buf.subrange(2, head as int) =~= big_endian(len, (head - 2) as nat));
    }
    assert(buf.subrange(head as int, (head + len) as int) =~= payload);
    let part = whole.take(n);
    if n >= 2 {
        assert(part[1] == buf[1]);
        assert(header_len(part) == head);
        if n >= head && head > 2 {
            assert(part.subrange(2, head as int) =~= big_endian(len, (head - 2) as nat));
        }
    }
}

/// Masking twice with one key gives back what was masked.
pub proof fn law_masking_undoes_itself(payload: Seq<u8>, key: Seq<u8>)
    ensures
        masked_with(masked_with(payload, key), key) == payload,
{
    assert forall|i: int| 0 <= i < payload.len() implies masked_with(
        masked_with(payload, key),
        key,
    )[i] == payload[i] by {
        let a = payload[i];
        let k = key[i % 4];
        assert((a ^ k) ^ k == a) by (bit_vector);
    }
    assert(masked_with(masked_with(payload, key), key) =~= payload);
}

} // verus!
