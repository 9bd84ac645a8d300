//! What a session decides around the stream: the addresses it connects to,
//! the authentication payload, the heartbeat, and the per-second statistics.

use vstd::prelude::*;
use std::collections::VecDeque;
use crate::codec::{json_is_array_at, json_pointer_is_array, json_pointer_string, json_pointer_u64, json_string_at, json_u64_at};
use crate::danmu::{model, str_field, DanmuState};
use crate::packet::{be_u32_at, encode_packet, lemma_packet_roundtrip, packet_bytes, OP_HEARTBEAT};
use crate::stream::{appends_nothing, checked_handle_binary_message, completes, lemma_two_chunks, run, step_limit, StreamRun};

verus! {

/// Seconds between two heartbeats.
pub const HEARTBEAT_INTERVAL_SECS: u64 = 30;

/// Seconds between two statistics updates.
pub const STATS_INTERVAL_SECS: u64 = 1;

/// The key that asks for the statistics line.
pub const STATS_KEY: u8 = 115;

/// The user id that the authentication payload announces.
pub const AUTH_UID: u64 = 102624818;

/// The protocol version that the authentication payload asks for (brotli bodies).
pub const AUTH_PROTOVER: u32 = 3;

/// The authentication type that the payload announces.
pub const AUTH_TYPE: u32 = 2;

/// The character of the decimal digit `d`.
pub open spec fn digit_char(d: int) -> char {
    (48 + d) as char
}

/// The decimal representation of `n`, without leading zeros.
pub open spec fn decimal(n: nat) -> Seq<char>
    decreases n,
{
    if n < 10 {
        seq![digit_char(n as int)]
    } else {
        decimal(n / 10).push(digit_char((n % 10) as int))
    }
}

/// Whether `c` is one of the digits `0` to `9`.
pub open spec fn is_digit(c: char) -> bool {
    '0' <= c && c <= '9'
}

/// The number that the digits `s` stand for in base 10.
pub open spec fn digits_value(s: Seq<char>) -> int
    decreases s.len(),
{
    if s.len() == 0 {
        0
    } else {
        digits_value(s.drop_last()) * 10 + (s.last() as int - 48)
    }
}

/// `decimal(n)` is the base-10 representation of `n`: it is not empty, every
/// character is a digit, it starts with `0` only for zero, and its digits read
/// back give `n`.
pub proof fn lemma_decimal_is_base10(n: nat)
    ensures
        decimal(n).len() >= 1,
        forall|i: int| 0 <= i < decimal(n).len() ==> is_digit(#[trigger] decimal(n)[i]),
        decimal(n)[0] == '0' ==> n == 0,
        digits_value(decimal(n)) == n,
    decreases n,
{
    if n < 10 {
        assert(decimal(n).drop_last() =~= Seq::<char>::empty());
        assert(digit_char(n as int) as int == 48 + n);
        assert(decimal(n).last() == digit_char(n as int));
        assert(digits_value(decimal(n)) == digits_value(decimal(n).drop_last()) * 10 + (decimal(n).last() as int - 48));
    } else {
        assert(digit_char((n % 10) as int) as int == 48 + n % 10);
        lemma_decimal_is_base10(n / 10);
        let d = decimal(n / 10);
        assert(decimal(n).drop_last() == d);
        assert(decimal(n).last() == digit_char((n % 10) as int));
        assert(digits_value(decimal(n)) == digits_value(d) * 10 + (decimal(n).last() as int - 48));
        assert(decimal(n)[0] == d[0]);
        assert forall|i: int| 0 <= i < decimal(n).len() implies is_digit(#[trigger] decimal(n)[i]) by {
            if i < d.len() {
                assert(decimal(n)[i] == d[i]);
            }
        }
    }
}

fn digit_str(d: u64) -> (r: &'static str)
    requires
        d < 10,
    ensures
        r@ == seq![digit_char(d as int)],
{
    if d == 0 {
        proof { reveal_strlit("0"); }
        "0"
    } else if d == 1 {
        proof { reveal_strlit("1"); }
        "1"
    } else if d == 2 {
        proof { reveal_strlit("2"); }
        "2"
    } else if d == 3 {
        proof { reveal_strlit("3"); }
        "3"
    } else if d == 4 {
        proof { reveal_strlit("4"); }
        "4"
    } else if d == 5 {
        proof { reveal_strlit("5"); }
        "5"
    } else if d == 6 {
        proof { reveal_strlit("6"); }
        "6"
    } else if d == 7 {
        proof { reveal_strlit("7"); }
        "7"
    } else if d == 8 {
        proof { reveal_strlit("8"); }
        "8"
    } else {
        proof { reveal_strlit("9"); }
        "9"
    }
}

/// Appends the decimal representation of `n` to `s`.
pub fn push_decimal(s: &mut String, n: u64)
    ensures
        final(s)@ == old(s)@ + decimal(n as nat),
    decreases n,
{
    if n >= 10 {
        push_decimal(s, n / 10);
    }
    s.append(digit_str(n % 10));
}

/// The address that tells the server and token for room `room_id`.
pub fn room_info_url(room_id: u64) -> (url: String)
    ensures
        url@ == "https://api.live.bilibili.com/xlive/web-room/v1/index/getDanmuInfo?id="@
            + decimal(room_id as nat) + "&type=0"@,
{
    let mut url = "https://api.live.bilibili.com/xlive/web-room/v1/index/getDanmuInfo?id=".to_owned();
    push_decimal(&mut url, room_id);
    url.append("&type=0");
    url
}

/// The server, websocket port and token that the room information `text`
/// (the JSON answer to `room_info_url`) gives: `data.host_list[0].host`,
/// `data.host_list[0].wss_port` and `data.token`. `None` where one of them is
/// missing or of another type (`host_list` must be an array).
pub open spec fn room_info_fields(text: Seq<char>) -> Option<(Seq<char>, u64, Seq<char>)> {
    if json_pointer_is_array(text, "/data/host_list"@) == Some(true) {
        match (
            str_field(text, "/data/host_list/0/host"@),
            json_pointer_u64(text, "/data/host_list/0/wss_port"@),
            str_field(text, "/data/token"@),
        ) {
            (Some(host), Some(Some(port)), Some(token)) => Some((host, port, token)),
            _ => None,
        }
    } else {
        None
    }
}

/// The room information read is exactly what stands in the answer: the host
/// string at `data.host_list[0].host`, the number at
/// `data.host_list[0].wss_port` and the token string at `data.token`, with
/// `host_list` an array.
pub proof fn lemma_room_info_read(text: Seq<char>, host: Seq<char>, port: u64, token: Seq<char>)
    ensures
        room_info_fields(text) == Some((host, port, token)) <==> {
            &&& json_pointer_is_array(text, "/data/host_list"@) == Some(true)
            &&& json_pointer_string(text, "/data/host_list/0/host"@) == Some(Some(host))
            &&& json_pointer_u64(text, "/data/host_list/0/wss_port"@) == Some(Some(port))
            &&& json_pointer_string(text, "/data/token"@) == Some(Some(token))
        },
{
}

/// Where to connect and with which token.
pub struct RoomInfo {
    pub host: String,
    pub port: u64,
    pub token: String,
}

/// Reads the server, websocket port and token from the room information `text`.
/// `None` exactly where `room_info_fields` is `None` (a field is missing).
pub fn read_room_info(text: &str) -> (r: Option<RoomInfo>)
    ensures
        match r {
            Some(info) => room_info_fields(text@) == Some((info.host@, info.port, info.token@)),
            None => room_info_fields(text@) is None,
        },
{
    match json_is_array_at(text, "/data/host_list") {
        Some(true) => {},
        _ => {
            return None;
        },
    }
    let host = match json_string_at(text, "/data/host_list/0/host") {
        Some(Some(h)) => h,
        _ => {
            return None;
        },
    };
    let port = match json_u64_at(text, "/data/host_list/0/wss_port") {
        Some(Some(p)) => p,
        _ => {
            return None;
        },
    };
    let token = match json_string_at(text, "/data/token") {
        Some(Some(t)) => t,
        _ => {
            return None;
        },
    };
    Some(RoomInfo { host, port, token })
}

/// The websocket address of the server `host` at `port`.
pub fn websocket_url(host: &str, port: u64) -> (url: String)
    ensures
        url@ == "wss://"@ + host@ + ":"@ + decimal(port as nat) + "/sub"@,
{
    let mut url = "wss://".to_owned();
    url.append(host);
    url.append(":");
    push_decimal(&mut url, port);
    url.append("/sub");
    url
}

/// The fields of the authentication payload (sent as a JSON object whose
/// `type` member is `auth_type`).
pub struct AuthPayload {
    pub uid: u64,
    pub roomid: u64,
    pub protover: u32,
    pub buvid: String,
    pub platform: String,
    pub auth_type: u32,
    pub key: String,
}

/// The authentication payload for room `room_id` with the token `token`.
pub fn auth_payload(room_id: u64, token: &str) -> (p: AuthPayload)
    ensures
        p.uid == AUTH_UID,
        p.roomid == room_id,
        p.protover == AUTH_PROTOVER,
        p.buvid@ == Seq::<char>::empty(),
        p.platform@ == "web"@,
        p.auth_type == AUTH_TYPE,
        p.key@ == token@,
{
    AuthPayload {
        uid: AUTH_UID,
        roomid: room_id,
        protover: AUTH_PROTOVER,
        buvid: String::new(),
        platform: "web".to_owned(),
        auth_type: AUTH_TYPE,
        key: token.to_owned(),
    }
}

/// The body of a heartbeat: the bytes of `ping`.
pub open spec fn heartbeat_body() -> Seq<u8> {
    seq![112u8, 105u8, 110u8, 103u8]
}

/// The heartbeat body is the text `ping` in ASCII, and the heartbeat packet is
/// 20 bytes: a header announcing 20 bytes, protocol 1 and operation 2.
pub proof fn lemma_heartbeat_is_ping()
    ensures
        heartbeat_body().len() == "ping"@.len(),
        forall|i: int| 0 <= i < heartbeat_body().len() ==> heartbeat_body()[i] as int == "ping"@[i] as int,
        packet_bytes(OP_HEARTBEAT, heartbeat_body()).len() == 20,
        be_u32_at(packet_bytes(OP_HEARTBEAT, heartbeat_body()), 0) == 20,
        be_u32_at(packet_bytes(OP_HEARTBEAT, heartbeat_body()), 8) == 2,
{
    reveal_strlit("ping");
    lemma_packet_roundtrip(OP_HEARTBEAT, heartbeat_body());
}

/// The heartbeat packet.
pub fn heartbeat_packet() -> (packet: Vec<u8>)
    ensures
        packet@ == packet_bytes(OP_HEARTBEAT, heartbeat_body()),
{
    let payload: Vec<u8> = vec![112u8, 105u8, 110u8, 103u8];
    assert(payload@ == heartbeat_body());
    encode_packet(OP_HEARTBEAT, payload.as_slice())
}

/// One statistics update: the messages counted in the last second become the
/// rate, are added to the total, and the count starts again from zero.
pub fn record_second(counter: &mut u32, total_counter: &mut u64, mps: &mut u32)
    requires
        *old(total_counter) + *old(counter) <= u64::MAX,
    ensures
        *final(mps) == *old(counter),
        *final(total_counter) == *old(total_counter) + *old(counter),
        *final(counter) == 0,
{
    *mps = *counter;
    *total_counter = *total_counter + *counter as u64;
    *counter = 0;
}

/// Whether the key `byte` asks for the statistics line.
pub fn is_stats_key(byte: u8) -> (r: bool)
    ensures
        r == (byte == STATS_KEY),
{
    byte == STATS_KEY
}

/// The statistics line for a rate of `mps` messages per second and `total` messages.
pub fn stats_line(mps: u32, total: u64) -> (line: String)
    ensures
        line@ == "Messages per second: "@ + decimal(mps as nat) + ", total message count: "@
            + decimal(total as nat),
{
    let mut line = "Messages per second: ".to_owned();
    push_decimal(&mut line, mps as u64);
    line.append(", total message count: ");
    push_decimal(&mut line, total);
    line
}

/// Receives one binary websocket message: `data` is appended to the pending
/// bytes and the pending bytes are handled. When that handling would panic or
/// never return, `false` comes back and only the append has happened.
pub fn receive_binary(
    pending: &mut Vec<u8>,
    data: Vec<u8>,
    existed_id_str: &mut VecDeque<String>,
    counter: &mut u32,
    printed: &mut Vec<String>,
) -> (handled: bool)
    ensures
        handled == completes(old(pending)@ + data@, model(*old(existed_id_str), *old(counter), *old(printed))),
        handled ==> run(old(pending)@ + data@, 0, model(*old(existed_id_str), *old(counter), *old(printed)),
            step_limit()) == (StreamRun::Done {
            rest: final(pending)@,
            state: model(*final(existed_id_str), *final(counter), *final(printed)),
        }),
        !handled ==> final(pending)@ == old(pending)@ + data@ && *final(existed_id_str) == *old(existed_id_str)
            && *final(counter) == *old(counter) && *final(printed) == *old(printed),
{
    let mut data = data;
    pending.append(&mut data);
    checked_handle_binary_message(pending, existed_id_str, counter, printed)
}

/// The bytes of `frames`, one after another.
pub open spec fn concat_frames(frames: Seq<Seq<u8>>) -> Seq<u8>
    decreases frames.len(),
{
    if frames.len() == 0 {
        Seq::empty()
    } else {
        concat_frames(frames.drop_last()) + frames.last()
    }
}

/// What receiving `frames` one call of `receive_binary` after another gives,
/// starting from the pending bytes `pending` and the state `st`.
pub open spec fn receive_frames(pending: Seq<u8>, frames: Seq<Seq<u8>>, st: DanmuState) -> StreamRun
    decreases frames.len(),
{
    if frames.len() == 0 {
        StreamRun::Done { rest: pending, state: st }
    } else {
        match receive_frames(pending, frames.drop_last(), st) {
            StreamRun::Fails => StreamRun::Fails,
            StreamRun::Done { rest, state } => run(rest + frames.last(), 0, state, step_limit()),
        }
    }
}

/// Messages split over websocket frames are handled as if they had come in one:
/// receiving the frames one by one from nothing pending gives the same pending
/// bytes, ids, counter and printed lines as handling all their bytes at once,
/// provided the handling of every prefix of the frames returns (no frame ends
/// inside a size field or inside the four bytes after a heartbeat reply) and
/// appends nothing (compressed packets hold whole packets).
pub proof fn lemma_frames_reassembled(frames: Seq<Seq<u8>>, st: DanmuState)
    requires
        frames.len() >= 1,
        forall|k: int| 1 <= k <= frames.len() ==> completes(concat_frames(#[trigger] frames.take(k)), st),
        forall|k: int|
            1 <= k < frames.len() ==> appends_nothing(concat_frames(#[trigger] frames.take(k)), 0, st, step_limit()),
    ensures
        receive_frames(Seq::empty(), frames, st) == run(concat_frames(frames), 0, st, step_limit()),
    decreases frames.len(),
{
    let n = frames.len() as int;
    let prev = frames.drop_last();
    assert(frames.take(n) == frames);
    assert(frames.take(n - 1) == prev);
    if n == 1 {
        assert(concat_frames(prev) == Seq::<u8>::empty());
        assert(receive_frames(Seq::empty(), prev, st) == (StreamRun::Done { rest: Seq::<u8>::empty(), state: st }));
        assert(Seq::<u8>::empty() + frames.last() == concat_frames(frames));
    } else {
        assert forall|k: int| 1 <= k <= prev.len() implies completes(concat_frames(#[trigger] prev.take(k)), st) by {
            assert(prev.take(k) == frames.take(k));
        }
        assert forall|k: int| 1 <= k < prev.len() implies appends_nothing(
            concat_frames(#[trigger] prev.take(k)),
            0,
            st,
            step_limit(),
        ) by {
            assert(prev.take(k) == frames.take(k));
        }
        assert(completes(concat_frames(frames.take(n - 1)), st));
        assert(completes(concat_frames(frames.take(n)), st));
        assert(appends_nothing(concat_frames(frames.take(n - 1)), 0, st, step_limit()));
        lemma_frames_reassembled(prev, st);
        lemma_two_chunks(concat_frames(prev), frames.last(), st);
        let r = run(concat_frames(prev), 0, st, step_limit());
        assert(receive_frames(Seq::empty(), frames, st) == run(r->rest + frames.last(), 0, r->state, step_limit()));
    }
}

} // verus!
