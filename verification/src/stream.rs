//! The receive stream: packets arrive in chunks, are appended to a pending
//! buffer, and every complete packet in it is handled; an incomplete packet at
//! the end stays pending. Compressed packets hold a stream of their own, which
//! is handled in turn; what that inner stream leaves incomplete is appended to
//! the pending buffer.

use vstd::prelude::*;
use std::collections::VecDeque;
use crate::codec::{brotli_decompress, brotli_decompressed, utf8_decoding, utf8_string};
use crate::danmu::{DanmuState, accounts, danmu_step, handle_danmu_message, lemma_accounts_refl, lemma_accounts_trans, lemma_danmu_step_accounts, model, texts};
use crate::packet::{be_u16_at, be_u32_at, frame_bytes, lemma_frame_roundtrip, lemma_packet_roundtrip, packet_bytes, read_u16_be, read_u32_be};

verus! {

/// Size of the input buffer handed to the brotli decoder.
pub const DECOMPRESS_BUFFER_SIZE: usize = 1048576;

/// The outcome of handling a buffer: the bytes left pending and the new state,
/// or a failure (the handling panics or never returns).
pub enum StreamRun {
    Done { rest: Seq<u8>, state: DanmuState },
    Fails,
}

/// The position and state after an uncompressed packet (protocol 0 or 1) of
/// `size` bytes at `p`: a heartbeat reply (operation 3) is skipped together with
/// four bytes beyond its size; a notification (operation 5) is decoded and
/// handled; any other packet is skipped. `None` where the handling panics.
pub open spec fn uncompressed_next(b: Seq<u8>, p: int, size: int, st: DanmuState) -> Option<(int, DanmuState)> {
    if p + 12 > b.len() {
        None
    } else {
        let op = be_u32_at(b, p + 8);
        if op == 3 {
            if p + size + 4 > usize::MAX {
                None
            } else {
                Some((p + size + 4, st))
            }
        } else if op == 5 {
            if size < 16 {
                None
            } else {
                match utf8_decoding(b.subrange(p + 16, p + size)) {
                    None => None,
                    Some(text) => match danmu_step(text, st) {
                        None => None,
                        Some(st2) => Some((p + size, st2)),
                    },
                }
            }
        } else {
            Some((p + size, st))
        }
    }
}

/// Handling of the buffer `b` from position `p` with state `st`, allowing
/// `fuel` packet steps. A protocol version other than 0, 1 or 3, or a
/// compressed body that does not decode, makes the handling retry the same
/// packet for ever: such a run uses up any fuel and fails.
pub open spec fn run(b: Seq<u8>, p: int, st: DanmuState, fuel: nat) -> StreamRun
    decreases fuel,
{
    if fuel == 0 {
        StreamRun::Fails
    } else if p >= b.len() {
        if p == b.len() {
            StreamRun::Done { rest: b.subrange(p, b.len() as int), state: st }
        } else {
            StreamRun::Fails
        }
    } else if p + 4 > b.len() {
        StreamRun::Fails
    } else {
        let size = be_u32_at(b, p);
        let f = (fuel - 1) as nat;
        if p + size > usize::MAX {
            StreamRun::Fails
        } else if p + size > b.len() {
            StreamRun::Done { rest: b.subrange(p, b.len() as int), state: st }
        } else if p + 8 > b.len() {
            StreamRun::Fails
        } else {
            let ver = be_u16_at(b, p + 6);
            if ver == 0 || ver == 1 {
                match uncompressed_next(b, p, size, st) {
                    None => StreamRun::Fails,
                    Some((p2, st2)) => run(b, p2, st2, f),
                }
            } else if ver == 3 {
                if size < 16 {
                    StreamRun::Fails
                } else {
                    match brotli_decompressed(b.subrange(p + 16, p + size), DECOMPRESS_BUFFER_SIZE) {
                        None => run(b, p, st, f),
                        Some(d) => match run(d, 0, st, f) {
                            StreamRun::Fails => StreamRun::Fails,
                            StreamRun::Done { rest, state } => run(b + rest, p + size, state, f),
                        },
                    }
                }
            } else {
                run(b, p, st, f)
            }
        }
    }
}

/// The largest number of packet steps one call handles: 2^64 - 1, more than
/// any run of a program can take.
pub open spec fn step_limit() -> nat {
    u64::MAX as nat
}

/// Whether handling `b` with state `st` returns (within `step_limit()` packet steps).
pub open spec fn completes(b: Seq<u8>, st: DanmuState) -> bool {
    run(b, 0, st, step_limit()) is Done
}

/// The packet at `p` makes the handling retry it for ever.
pub open spec fn stalls(b: Seq<u8>, p: int, st: DanmuState) -> bool {
    &&& 0 <= p
    &&& p + 8 <= b.len()
    &&& p + be_u32_at(b, p) <= b.len()
    &&& p + be_u32_at(b, p) <= usize::MAX
    &&& {
        let size = be_u32_at(b, p);
        let ver = be_u16_at(b, p + 6);
        ||| (ver != 0 && ver != 1 && ver != 3)
        ||| (ver == 3 && size >= 16 && brotli_decompressed(b.subrange(p + 16, p + size), DECOMPRESS_BUFFER_SIZE) is None)
        ||| ((ver == 0 || ver == 1) && uncompressed_next(b, p, size, st) == Some((p, st)))
    }
}

/// A packet that the handling retries for ever fails whatever the fuel.
pub proof fn lemma_stall_fails(b: Seq<u8>, p: int, st: DanmuState, fuel: nat)
    requires
        stalls(b, p, st),
    ensures
        run(b, p, st, fuel) is Fails,
    decreases fuel,
{
    if fuel > 0 {
        lemma_stall_fails(b, p, st, (fuel - 1) as nat);
    }
}

/// The decompressed body of the packet of `size` bytes at `p`.
pub open spec fn decoded_body(b: Seq<u8>, p: int, size: int) -> Option<Seq<u8>> {
    brotli_decompressed(b.subrange(p + 16, p + size), DECOMPRESS_BUFFER_SIZE)
}

/// Whatever a handling that returns does to the state, the counter grows by
/// the number of lines printed, earlier lines stay, and a window of at most 31
/// distinct ids stays so.
pub proof fn lemma_run_accounts(b: Seq<u8>, p: int, st: DanmuState, fuel: nat)
    ensures
        run(b, p, st, fuel) is Done ==> accounts(st, run(b, p, st, fuel)->state),
    decreases fuel,
{
    if fuel == 0 {
    } else if p >= b.len() {
        lemma_accounts_refl(st);
    } else if p + 4 > b.len() {
    } else {
        let size = be_u32_at(b, p);
        let f = (fuel - 1) as nat;
        if p + size > usize::MAX {
        } else if p + size > b.len() {
            lemma_accounts_refl(st);
        } else if p + 8 > b.len() {
        } else {
            let ver = be_u16_at(b, p + 6);
            if ver == 0 || ver == 1 {
                match uncompressed_next(b, p, size, st) {
                    None => {},
                    Some((p2, st2)) => {
                        lemma_run_accounts(b, p2, st2, f);
                        if run(b, p2, st2, f) is Done {
                            let op = be_u32_at(b, p + 8);
                            if op == 5 {
                                let text = utf8_decoding(b.subrange(p + 16, p + size))->0;
                                lemma_danmu_step_accounts(text, st);
                            } else {
                                lemma_accounts_refl(st);
                            }
                            lemma_accounts_trans(st, st2, run(b, p2, st2, f)->state);
                        }
                    },
                }
            } else if ver == 3 {
                if size >= 16 {
                    match brotli_decompressed(b.subrange(p + 16, p + size), DECOMPRESS_BUFFER_SIZE) {
                        None => {
                            lemma_run_accounts(b, p, st, f);
                        },
                        Some(d) => {
                            lemma_run_accounts(d, 0, st, f);
                            match run(d, 0, st, f) {
                                StreamRun::Fails => {},
                                StreamRun::Done { rest, state } => {
                                    lemma_run_accounts(b + rest, p + size, state, f);
                                    if run(b + rest, p + size, state, f) is Done {
                                        lemma_accounts_trans(st, state, run(b + rest, p + size, state, f)->state);
                                    }
                                },
                            }
                        },
                    }
                }
            } else {
                lemma_run_accounts(b, p, st, f);
            }
        }
    }
}

/// An empty buffer is handled at once and nothing changes.
pub proof fn lemma_empty_buffer(st: DanmuState, fuel: nat)
    requires
        fuel > 0,
    ensures
        run(Seq::empty(), 0, st, fuel) == (StreamRun::Done { rest: Seq::empty(), state: st }),
{
    assert(Seq::<u8>::empty().subrange(0, 0) == Seq::<u8>::empty());
}

/// A buffer that holds only the start of a packet (its size field announces
/// more bytes than the buffer has) stays pending, whole, and nothing changes.
pub proof fn lemma_incomplete_packet_stays(b: Seq<u8>, st: DanmuState, fuel: nat)
    requires
        fuel > 0,
        b.len() >= 4,
        be_u32_at(b, 0) > b.len(),
    ensures
        run(b, 0, st, fuel) == (StreamRun::Done { rest: b, state: st }),
{
    assert(b.subrange(0, b.len() as int) == b);
}

/// A framed packet whose operation is neither a heartbeat reply nor a
/// notification is handled whole and changes nothing.
pub proof fn lemma_other_packet_consumed(op: u32, payload: Seq<u8>, st: DanmuState, fuel: nat)
    requires
        fuel >= 2,
        payload.len() + 16 <= u32::MAX,
        op != 3,
        op != 5,
    ensures
        run(packet_bytes(op, payload), 0, st, fuel) == (StreamRun::Done { rest: Seq::empty(), state: st }),
{
    lemma_packet_roundtrip(op, payload);
    let b = packet_bytes(op, payload);
    let f = (fuel - 1) as nat;
    assert(b.subrange(b.len() as int, b.len() as int) == Seq::<u8>::empty());
    assert(run(b, b.len() as int, st, f) == (StreamRun::Done { rest: Seq::<u8>::empty(), state: st }));
    assert(run(b, 0, st, fuel) == run(b, b.len() as int, st, f));
}

/// A framed notification is handled whole, as its body's text says: reading a
/// packet back gives what was written into it.
pub proof fn lemma_message_packet_consumed(body: Seq<u8>, st: DanmuState, fuel: nat)
    requires
        fuel >= 2,
        body.len() + 16 <= u32::MAX,
        utf8_decoding(body) is Some,
        danmu_step(utf8_decoding(body)->0, st) is Some,
    ensures
        run(packet_bytes(5, body), 0, st, fuel) == (StreamRun::Done {
            rest: Seq::empty(),
            state: danmu_step(utf8_decoding(body)->0, st)->0,
        }),
{
    lemma_packet_roundtrip(5, body);
    let b = packet_bytes(5, body);
    let f = (fuel - 1) as nat;
    let st2 = danmu_step(utf8_decoding(body)->0, st)->0;
    assert(b.subrange(16, b.len() as int) == body);
    assert(b.subrange(b.len() as int, b.len() as int) == Seq::<u8>::empty());
    assert(uncompressed_next(b, 0, b.len() as int, st) == Some((b.len() as int, st2)));
    assert(run(b, b.len() as int, st2, f) == (StreamRun::Done { rest: Seq::<u8>::empty(), state: st2 }));
    assert(run(b, 0, st, fuel) == run(b, b.len() as int, st2, f));
}

/// A framed notification of protocol 0 or 1 is handled whole, as its body's
/// text says: the packet is consumed and the state is what `danmu_step` gives.
pub proof fn lemma_notification_packet_consumed(version: u16, body: Seq<u8>, st: DanmuState, fuel: nat)
    requires
        version == 0 || version == 1,
        fuel >= 2,
        body.len() + 16 <= u32::MAX,
        utf8_decoding(body) is Some,
        danmu_step(utf8_decoding(body)->0, st) is Some,
    ensures
        run(frame_bytes(version, 5, body), 0, st, fuel) == (StreamRun::Done {
            rest: Seq::empty(),
            state: danmu_step(utf8_decoding(body)->0, st)->0,
        }),
{
    lemma_frame_roundtrip(version, 5, body);
    let b = frame_bytes(version, 5, body);
    let f = (fuel - 1) as nat;
    let st2 = danmu_step(utf8_decoding(body)->0, st)->0;
    assert(b.subrange(16, b.len() as int) == body);
    assert(b.subrange(b.len() as int, b.len() as int) == Seq::<u8>::empty());
    assert(uncompressed_next(b, 0, b.len() as int, st) == Some((b.len() as int, st2)));
    assert(run(b, b.len() as int, st2, f) == (StreamRun::Done { rest: Seq::<u8>::empty(), state: st2 }));
    assert(run(b, 0, st, fuel) == run(b, b.len() as int, st2, f));
}

/// A packet of protocol 0 is handled exactly as the same packet of protocol 1
/// (the packets inside compressed ones carry protocol 0).
pub proof fn lemma_protocol_zero_as_one(op: u32, body: Seq<u8>, st: DanmuState, fuel: nat)
    requires
        body.len() + 16 <= u32::MAX,
    ensures
        run(frame_bytes(0, op, body), 0, st, fuel) == run(frame_bytes(1, op, body), 0, st, fuel),
{
    lemma_frame_roundtrip(0, op, body);
    lemma_frame_roundtrip(1, op, body);
    let b0 = frame_bytes(0, op, body);
    let b1 = frame_bytes(1, op, body);
    let len = b0.len() as int;
    assert(b0.subrange(16, len) == body);
    assert(b1.subrange(16, len) == body);
    assert forall|k: int| 8 <= k < len implies b0[k] == b1[k] by {
        if k >= 16 {
            assert(b0[k] == b0.subrange(16, len)[k - 16]);
            assert(b1[k] == b1.subrange(16, len)[k - 16]);
        }
    }
    assert(be_u32_at(b0, 8) == be_u32_at(b1, 8));
    if fuel > 0 {
        let f = (fuel - 1) as nat;
        assert(uncompressed_next(b0, 0, len, st) == uncompressed_next(b1, 0, len, st));
        match uncompressed_next(b0, 0, len, st) {
            None => {},
            Some((p2, st2)) => {
                assert(p2 >= len);
                assert(run(b0, 0, st, fuel) == run(b0, p2, st2, f));
                assert(run(b1, 0, st, fuel) == run(b1, p2, st2, f));
                if f > 0 && p2 == len {
                    assert(b0.subrange(len, len) == b1.subrange(len, len));
                }
                assert(run(b0, p2, st2, f) == run(b1, p2, st2, f));
            },
        }
    }
}

/// A heartbeat reply is skipped together with the four bytes that follow it.
pub proof fn lemma_heartbeat_reply_skips_four(payload: Seq<u8>, extra: Seq<u8>, st: DanmuState, fuel: nat)
    requires
        fuel >= 2,
        payload.len() + 20 <= u32::MAX,
        extra.len() == 4,
    ensures
        run(packet_bytes(3, payload) + extra, 0, st, fuel) == (StreamRun::Done { rest: Seq::empty(), state: st }),
{
    lemma_packet_roundtrip(3, payload);
    let p = packet_bytes(3, payload);
    let b = p + extra;
    assert(b.subrange(0, p.len() as int) == p);
    assert(be_u32_at(b, 0) == be_u32_at(p, 0));
    assert(be_u16_at(b, 6) == be_u16_at(p, 6));
    assert(be_u32_at(b, 8) == be_u32_at(p, 8));
    let f = (fuel - 1) as nat;
    assert(b.subrange(b.len() as int, b.len() as int) == Seq::<u8>::empty());
    assert(run(b, b.len() as int, st, f) == (StreamRun::Done { rest: Seq::<u8>::empty(), state: st }));
    assert(uncompressed_next(b, 0, p.len() as int, st) == Some((b.len() as int, st)));
    assert(run(b, 0, st, fuel) == run(b, b.len() as int, st, f));
}

/// Compression is transparent: a protocol-3 packet whose body decompresses to
/// the stream `d` is handled as `d` is, and what `d` leaves pending stays
/// pending.
pub proof fn lemma_compressed_packet_transparent(op: u32, body: Seq<u8>, st: DanmuState, fuel: nat)
    requires
        fuel >= 2,
        body.len() + 16 <= u32::MAX,
        body.len() + 16 + u32::MAX <= usize::MAX,
        brotli_decompressed(body, DECOMPRESS_BUFFER_SIZE) is Some,
        run(brotli_decompressed(body, DECOMPRESS_BUFFER_SIZE)->0, 0, st, (fuel - 1) as nat) is Done,
    ensures
        run(frame_bytes(3, op, body), 0, st, fuel) == run(brotli_decompressed(body, DECOMPRESS_BUFFER_SIZE)->0, 0, st,
            (fuel - 1) as nat),
{
    lemma_frame_roundtrip(3, op, body);
    let b = frame_bytes(3, op, body);
    let f = (fuel - 1) as nat;
    let d = brotli_decompressed(body, DECOMPRESS_BUFFER_SIZE)->0;
    let inner = run(d, 0, st, f);
    let rest = inner->rest;
    let st2 = inner->state;
    assert(b.subrange(16, b.len() as int) == body);
    assert(run(b, 0, st, fuel) == run(b + rest, b.len() as int, st2, f));
    lemma_pending_rest(d, 0, st, f);
    let b2 = b + rest;
    if rest.len() == 0 {
        assert(b2.subrange(b.len() as int, b2.len() as int) == rest);
        assert(run(b2, b.len() as int, st2, f) == (StreamRun::Done { rest: rest, state: st2 }));
    } else {
        assert(b2.subrange(b.len() as int, b2.len() as int) == rest);
        let q = b.len() as int;
        assert(b2[q] == rest[0] && b2[q + 1] == rest[1] && b2[q + 2] == rest[2] && b2[q + 3] == rest[3]);
        assert(be_u32_at(b2, q) == be_u32_at(rest, 0));
        assert(run(b2, b.len() as int, st2, f) == (StreamRun::Done { rest: rest, state: st2 }));
    }
}

/// What a handling that returns leaves pending is empty, or the start of a
/// packet whose size field announces more bytes than are left.
pub proof fn lemma_pending_rest(b: Seq<u8>, p: int, st: DanmuState, fuel: nat)
    requires
        p >= 0,
        run(b, p, st, fuel) is Done,
    ensures
        run(b, p, st, fuel)->rest.len() == 0 || (run(b, p, st, fuel)->rest.len() >= 4 && be_u32_at(
            run(b, p, st, fuel)->rest,
            0,
        ) > run(b, p, st, fuel)->rest.len()),
    decreases fuel,
{
    if fuel == 0 {
    } else if p >= b.len() {
        assert(b.subrange(p, b.len() as int).len() == 0);
    } else if p + 4 > b.len() {
    } else {
        let size = be_u32_at(b, p);
        let f = (fuel - 1) as nat;
        if p + size > usize::MAX {
        } else if p + size > b.len() {
            let r = b.subrange(p, b.len() as int);
            assert(r[0] == b[p] && r[1] == b[p + 1] && r[2] == b[p + 2] && r[3] == b[p + 3]);
            assert(be_u32_at(r, 0) == size);
        } else if p + 8 > b.len() {
        } else {
            let ver = be_u16_at(b, p + 6);
            if ver == 0 || ver == 1 {
                match uncompressed_next(b, p, size, st) {
                    None => {},
                    Some((p2, st2)) => {
                        lemma_pending_rest(b, p2, st2, f);
                    },
                }
            } else if ver == 3 {
                if size >= 16 {
                    match brotli_decompressed(b.subrange(p + 16, p + size), DECOMPRESS_BUFFER_SIZE) {
                        None => {
                            lemma_pending_rest(b, p, st, f);
                        },
                        Some(d) => {
                            match run(d, 0, st, f) {
                                StreamRun::Fails => {},
                                StreamRun::Done { rest, state } => {
                                    lemma_pending_rest(b + rest, p + size, state, f);
                                },
                            }
                        },
                    }
                }
            } else {
                lemma_pending_rest(b, p, st, f);
            }
        }
    }
}

/// A notification packet whose body is UTF-8 text is handled as that text
/// says: the state changes as by `danmu_step` on the text and the position moves
/// past the packet, or the handling panics where `danmu_step` does.
pub proof fn lemma_notification_handled(b: Seq<u8>, p: int, size: int, st: DanmuState)
    requires
        0 <= p,
        p + 12 <= b.len(),
        be_u32_at(b, p + 8) == 5,
        16 <= size,
        p + size <= b.len(),
        utf8_decoding(b.subrange(p + 16, p + size)) is Some,
    ensures
        uncompressed_next(b, p, size, st) == match danmu_step(utf8_decoding(b.subrange(p + 16, p + size))->0, st) {
            Some(st2) => Some((p + size, st2)),
            None => None,
        },
{
}

/// Whether the handling of `b` from `p` never appends to the buffer: every
/// compressed packet it meets holds whole packets only, so its inner stream
/// leaves nothing pending.
pub open spec fn appends_nothing(b: Seq<u8>, p: int, st: DanmuState, fuel: nat) -> bool
    decreases fuel,
{
    if fuel == 0 || p >= b.len() || p + 4 > b.len() {
        true
    } else {
        let size = be_u32_at(b, p);
        let f = (fuel - 1) as nat;
        if p + size > usize::MAX || p + size > b.len() || p + 8 > b.len() {
            true
        } else {
            let ver = be_u16_at(b, p + 6);
            if ver == 0 || ver == 1 {
                match uncompressed_next(b, p, size, st) {
                    None => true,
                    Some((p2, st2)) => appends_nothing(b, p2, st2, f),
                }
            } else if ver == 3 {
                if size < 16 {
                    true
                } else {
                    match brotli_decompressed(b.subrange(p + 16, p + size), DECOMPRESS_BUFFER_SIZE) {
                        None => appends_nothing(b, p, st, f),
                        Some(d) => match run(d, 0, st, f) {
                            StreamRun::Fails => true,
                            StreamRun::Done { rest, state } => rest.len() == 0 && appends_nothing(
                                b + rest,
                                p + size,
                                state,
                                f,
                            ),
                        },
                    }
                }
            } else {
                appends_nothing(b, p, st, f)
            }
        }
    }
}

/// More fuel does not change a handling that returns.
pub proof fn lemma_fuel_mono(b: Seq<u8>, p: int, st: DanmuState, fuel: nat, more: nat)
    requires
        run(b, p, st, fuel) is Done,
        fuel <= more,
    ensures
        run(b, p, st, more) == run(b, p, st, fuel),
    decreases fuel,
{
    if p >= b.len() || p + 4 > b.len() {
    } else {
        let size = be_u32_at(b, p);
        let f = (fuel - 1) as nat;
        let g = (more - 1) as nat;
        if p + size > usize::MAX || p + size > b.len() || p + 8 > b.len() {
        } else {
            let ver = be_u16_at(b, p + 6);
            if ver == 0 || ver == 1 {
                match uncompressed_next(b, p, size, st) {
                    None => {},
                    Some((p2, st2)) => {
                        lemma_fuel_mono(b, p2, st2, f, g);
                    },
                }
            } else if ver == 3 {
                if size >= 16 {
                    match brotli_decompressed(b.subrange(p + 16, p + size), DECOMPRESS_BUFFER_SIZE) {
                        None => {
                            lemma_fuel_mono(b, p, st, f, g);
                        },
                        Some(d) => {
                            lemma_fuel_mono(d, 0, st, f, g);
                            match run(d, 0, st, f) {
                                StreamRun::Fails => {},
                                StreamRun::Done { rest, state } => {
                                    lemma_fuel_mono(b + rest, p + size, state, f, g);
                                },
                            }
                        },
                    }
                }
            } else {
                lemma_fuel_mono(b, p, st, f, g);
            }
        }
    }
}

/// Two handlings of the same buffer that both return give the same result.
pub proof fn lemma_fuel_agree(b: Seq<u8>, p: int, st: DanmuState, f1: nat, f2: nat)
    requires
        run(b, p, st, f1) is Done,
        run(b, p, st, f2) is Done,
    ensures
        run(b, p, st, f1) == run(b, p, st, f2),
{
    if f1 <= f2 {
        lemma_fuel_mono(b, p, st, f1, f2);
    } else {
        lemma_fuel_mono(b, p, st, f2, f1);
    }
}

/// Bytes before the handled part do not matter: handling `x + y` from
/// `|x| + q`, when it returns, is handling `y` from `q`.
pub proof fn lemma_run_shift(x: Seq<u8>, y: Seq<u8>, q: int, st: DanmuState, fuel: nat)
    requires
        0 <= q,
        run(x + y, x.len() + q, st, fuel) is Done,
    ensures
        run(y, q, st, fuel) == run(x + y, x.len() + q, st, fuel),
    decreases fuel,
{
    let b = x + y;
    let p = x.len() + q;
    let n = x.len() as int;
    assert forall|k: int| 0 <= k < y.len() implies b[n + k] == y[k] by {}
    if q >= y.len() {
        assert(b.subrange(p, b.len() as int) == y.subrange(q, y.len() as int));
    } else if q + 4 > y.len() {
    } else {
        let size = be_u32_at(b, p);
        assert(size == be_u32_at(y, q));
        let f = (fuel - 1) as nat;
        if p + size > usize::MAX {
        } else if q + size > y.len() {
            assert(b.subrange(p, b.len() as int) == y.subrange(q, y.len() as int));
        } else if q + 8 > y.len() {
        } else {
            let ver = be_u16_at(b, p + 6);
            assert(ver == be_u16_at(y, q + 6));
            if size >= 16 {
                assert(b.subrange(p + 16, p + size) == y.subrange(q + 16, q + size));
            }
            if ver == 0 || ver == 1 {
                if q + 12 <= y.len() {
                    assert(be_u32_at(b, p + 8) == be_u32_at(y, q + 8));
                }
                match uncompressed_next(y, q, size, st) {
                    None => {},
                    Some((q2, st2)) => {
                        assert(uncompressed_next(b, p, size, st) == Some((n + q2, st2)));
                        lemma_run_shift(x, y, q2, st2, f);
                    },
                }
            } else if ver == 3 {
                if size >= 16 {
                    match brotli_decompressed(y.subrange(q + 16, q + size), DECOMPRESS_BUFFER_SIZE) {
                        None => {
                            lemma_run_shift(x, y, q, st, f);
                        },
                        Some(d) => {
                            match run(d, 0, st, f) {
                                StreamRun::Fails => {},
                                StreamRun::Done { rest, state } => {
                                    assert(b + rest == x + (y + rest));
                                    lemma_run_shift(x, y + rest, q + size, state, f);
                                },
                            }
                        },
                    }
                }
            } else {
                lemma_run_shift(x, y, q, st, f);
            }
        }
    }
}

/// Handling a buffer in two calls, the second on what the first left pending
/// followed by more bytes, gives what one call on all the bytes gives, provided
/// the first call returns and appends nothing.
pub proof fn lemma_split_run(a: Seq<u8>, more: Seq<u8>, p: int, st: DanmuState, f: nat, n: nat)
    requires
        0 <= p,
        run(a, p, st, f) is Done,
        appends_nothing(a, p, st, f),
        run(a + more, p, st, n) is Done,
    ensures
        run(run(a, p, st, f)->rest + more, 0, run(a, p, st, f)->state, n) == run(a + more, p, st, n),
    decreases f,
{
    let b = a + more;
    assert forall|k: int| 0 <= k < a.len() implies b[k] == a[k] by {}
    let g = (n - 1) as nat;
    let ff = (f - 1) as nat;
    if p >= a.len() {
        assert(a.subrange(p, a.len() as int) + more == more);
        lemma_run_shift(a, more, 0, st, n);
    } else if p + 4 > a.len() {
    } else {
        let size = be_u32_at(a, p);
        assert(size == be_u32_at(b, p));
        if p + size > usize::MAX {
        } else if p + size > a.len() {
            let r = a.subrange(p, a.len() as int);
            assert(b == a.subrange(0, p) + (r + more));
            lemma_run_shift(a.subrange(0, p), r + more, 0, st, n);
        } else if p + 8 > a.len() {
        } else {
            let ver = be_u16_at(a, p + 6);
            assert(ver == be_u16_at(b, p + 6));
            if size >= 16 {
                assert(b.subrange(p + 16, p + size) == a.subrange(p + 16, p + size));
            }
            if ver == 0 || ver == 1 {
                if p + 12 <= a.len() {
                    assert(be_u32_at(b, p + 8) == be_u32_at(a, p + 8));
                }
                match uncompressed_next(a, p, size, st) {
                    None => {},
                    Some((p2, st2)) => {
                        assert(uncompressed_next(b, p, size, st) == Some((p2, st2)));
                        lemma_split_run(a, more, p2, st2, ff, g);
                        let r = run(a, p, st, f);
                        lemma_fuel_mono(r->rest + more, 0, r->state, g, n);
                    },
                }
            } else if ver == 3 {
                if size >= 16 {
                    match brotli_decompressed(a.subrange(p + 16, p + size), DECOMPRESS_BUFFER_SIZE) {
                        None => {
                            lemma_split_run(a, more, p, st, ff, g);
                            let r = run(a, p, st, f);
                            lemma_fuel_mono(r->rest + more, 0, r->state, g, n);
                        },
                        Some(d) => {
                            lemma_fuel_agree(d, 0, st, ff, g);
                            let inner = run(d, 0, st, ff);
                            assert(inner->rest.len() == 0);
                            assert(a + inner->rest == a);
                            assert(b + inner->rest == b);
                            lemma_split_run(a, more, p + size, inner->state, ff, g);
                            let r = run(a, p, st, f);
                            lemma_fuel_mono(r->rest + more, 0, r->state, g, n);
                        },
                    }
                }
            } else {
                lemma_split_run(a, more, p, st, ff, g);
                let r = run(a, p, st, f);
                lemma_fuel_mono(r->rest + more, 0, r->state, g, n);
            }
        }
    }
}

/// A stream received in two chunks is handled as the same stream received in
/// one: when the handling of the first chunk returns and appends nothing, and
/// the handling of both chunks together returns, handling the first chunk and
/// then what it left pending followed by the second gives the same pending
/// bytes, ids, counter and printed lines.
pub proof fn lemma_two_chunks(first: Seq<u8>, second: Seq<u8>, st: DanmuState)
    requires
        completes(first, st),
        appends_nothing(first, 0, st, step_limit()),
        completes(first + second, st),
    ensures
        completes(run(first, 0, st, step_limit())->rest + second, run(first, 0, st, step_limit())->state),
        run(run(first, 0, st, step_limit())->rest + second, 0, run(first, 0, st, step_limit())->state, step_limit())
            == run(first + second, 0, st, step_limit()),
{
    lemma_split_run(first, second, 0, st, step_limit(), step_limit());
}

/// Copies `bin[start..end]` into a new buffer.
fn copy_range(bin: &Vec<u8>, start: usize, end: usize) -> (out: Vec<u8>)
    requires
        start <= end <= bin@.len(),
    ensures
        out@ == bin@.subrange(start as int, end as int),
{
    let mut out: Vec<u8> = Vec::new();
    let mut i: usize = start;
    while i < end
        invariant
            start <= i <= end <= bin@.len(),
            out@ == bin@.subrange(start as int, i as int),
        decreases end - i,
    {
        out.push(bin[i]);
        i = i + 1;
        assert(out@ == bin@.subrange(start as int, i as int));
    }
    out
}

/// Handles the uncompressed packet of `packet_size` bytes at `*pos` and moves
/// `*pos` past it. Returns `false` exactly where the handling panics.
fn handle_uncompressed_message(
    bin: &Vec<u8>,
    pos: &mut usize,
    packet_size: u32,
    existed_id_str: &mut VecDeque<String>,
    counter: &mut u32,
    printed: &mut Vec<String>,
) -> (ok: bool)
    requires
        *old(pos) + packet_size <= bin@.len(),
    ensures
        ok == uncompressed_next(bin@, *old(pos) as int, packet_size as int,
            model(*old(existed_id_str), *old(counter), *old(printed))) is Some,
        ok ==> uncompressed_next(bin@, *old(pos) as int, packet_size as int,
            model(*old(existed_id_str), *old(counter), *old(printed)))
            == Some((*final(pos) as int, model(*final(existed_id_str), *final(counter), *final(printed)))),
{
    if bin.len() - *pos < 12 {
        return false;
    }
    let message_type = read_u32_be(bin.as_slice(), *pos + 8);
    if message_type == 3 {
        if packet_size as usize > usize::MAX - *pos - 4 {
            return false;
        }
        *pos = *pos + packet_size as usize + 4;
        true
    } else if message_type == 5 {
        if packet_size < 16 {
            return false;
        }
        let end = *pos + packet_size as usize;
        let bin_data = copy_range(bin, *pos + 16, end);
        match utf8_string(bin_data) {
            None => false,
            Some(json_str) => {
                if !handle_danmu_message(json_str.as_str(), existed_id_str, counter, printed) {
                    return false;
                }
                *pos = end;
                true
            },
        }
    } else {
        *pos = *pos + packet_size as usize;
        true
    }
}

/// What handling a compressed packet came to.
enum Compressed {
    /// The inner stream was handled and the position moved past the packet.
    Advanced,
    /// The body does not decode: the same packet would be retried for ever.
    Stalled,
    /// The handling panics.
    Failed,
}

/// Handles the compressed packet of `packet_size` bytes at `*pos`: its body is
/// decompressed and handled as a stream of its own, and what that stream leaves
/// pending is appended to `bin`.
fn handle_compressed_message(
    bin: &mut Vec<u8>,
    pos: &mut usize,
    packet_size: u32,
    existed_id_str: &mut VecDeque<String>,
    counter: &mut u32,
    printed: &mut Vec<String>,
    fuel: u64,
) -> (r: Compressed)
    requires
        *old(pos) + packet_size <= old(bin)@.len(),
    ensures
        r is Failed ==> packet_size < 16 || (decoded_body(old(bin)@, *old(pos) as int, packet_size as int) is Some
            && run(decoded_body(old(bin)@, *old(pos) as int, packet_size as int)->0, 0,
                model(*old(existed_id_str), *old(counter), *old(printed)), fuel as nat) is Fails),
        r is Failed ==> final(bin)@ == old(bin)@ && (*final(pos) == *old(pos) || *final(pos) == *old(pos)
            + packet_size),
        r is Stalled ==> {
            &&& packet_size >= 16
            &&& decoded_body(old(bin)@, *old(pos) as int, packet_size as int) is None
            &&& final(bin)@ == old(bin)@
            &&& *final(pos) == *old(pos)
            &&& model(*final(existed_id_str), *final(counter), *final(printed)) == model(
                *old(existed_id_str),
                *old(counter),
                *old(printed),
            )
        },
        r is Advanced ==> {
            &&& packet_size >= 16
            &&& decoded_body(old(bin)@, *old(pos) as int, packet_size as int) is Some
            &&& run(decoded_body(old(bin)@, *old(pos) as int, packet_size as int)->0, 0,
                model(*old(existed_id_str), *old(counter), *old(printed)), fuel as nat) is Done
            &&& final(bin)@ == old(bin)@ + run(decoded_body(old(bin)@, *old(pos) as int, packet_size as int)->0, 0,
                model(*old(existed_id_str), *old(counter), *old(printed)), fuel as nat)->rest
            &&& model(*final(existed_id_str), *final(counter), *final(printed)) == run(decoded_body(old(bin)@,
                *old(pos) as int, packet_size as int)->0, 0, model(*old(existed_id_str), *old(counter),
                *old(printed)), fuel as nat)->state
            &&& *final(pos) == *old(pos) + packet_size
        },
    decreases fuel, 1nat,
{
    if packet_size < 16 {
        return Compressed::Failed;
    }
    let len = bin.len();
    let input = copy_range(bin, *pos + 16, *pos + packet_size as usize);
    match brotli_decompress(input.as_slice(), DECOMPRESS_BUFFER_SIZE) {
        None => Compressed::Stalled,
        Some(decoded) => {
            let mut decoded = decoded;
            *pos = *pos + packet_size as usize;
            if !run_packets(&mut decoded, existed_id_str, counter, printed, fuel) {
                return Compressed::Failed;
            }
            if decoded.len() > 0 {
                bin.append(&mut decoded);
            } else {
                assert(bin@ == old(bin)@ + decoded@);
            }
            Compressed::Advanced
        },
    }
}

/// Handles `bin` from its start with at most `fuel` packet steps and drops what
/// was handled. Returns whether the handling is done (`run` is `Done`), and
/// then leaves the pending bytes in `bin` and the state as `run` says.
fn run_packets(
    bin: &mut Vec<u8>,
    existed_id_str: &mut VecDeque<String>,
    counter: &mut u32,
    printed: &mut Vec<String>,
    fuel: u64,
) -> (ok: bool)
    ensures
        ok == run(old(bin)@, 0, model(*old(existed_id_str), *old(counter), *old(printed)), fuel as nat) is Done,
        ok ==> run(old(bin)@, 0, model(*old(existed_id_str), *old(counter), *old(printed)), fuel as nat)
            == (StreamRun::Done { rest: final(bin)@, state: model(*final(existed_id_str), *final(counter), *final(printed)) }),
    decreases fuel, 0nat,
{
    let ghost b0 = bin@;
    let ghost m0 = model(*existed_id_str, *counter, *printed);
    let mut pos: usize = 0;
    let mut f: u64 = fuel;
    loop
        invariant
            f <= fuel,
            b0 == old(bin)@,
            m0 == model(*old(existed_id_str), *old(counter), *old(printed)),
            run(b0, 0, m0, fuel as nat) == run(bin@, pos as int, model(*existed_id_str, *counter, *printed), f as nat),
        decreases f,
    {
        let ghost b1 = bin@;
        let ghost m1 = model(*existed_id_str, *counter, *printed);
        let ghost p1 = pos as int;
        if f == 0 {
            return false;
        }
        if pos >= bin.len() {
            if pos > bin.len() {
                return false;
            }
            let rest = bin.split_off(pos);
            *bin = rest;
            return true;
        }
        if bin.len() - pos < 4 {
            return false;
        }
        let packet_size = read_u32_be(bin.as_slice(), pos);
        if packet_size as usize > usize::MAX - pos {
            return false;
        }
        if packet_size as usize + pos > bin.len() {
            let rest = bin.split_off(pos);
            *bin = rest;
            return true;
        }
        if bin.len() - pos < 8 {
            return false;
        }
        let proto_ver = read_u16_be(bin.as_slice(), pos + 6);
        if proto_ver == 0 || proto_ver == 1 {
            let before = pos;
            if !handle_uncompressed_message(bin, &mut pos, packet_size, existed_id_str, counter, printed) {
                return false;
            }
            if pos == before {
                proof {
                    lemma_stall_fails(b1, p1, m1, f as nat);
                }
                return false;
            }
        } else if proto_ver == 3 {
            match handle_compressed_message(bin, &mut pos, packet_size, existed_id_str, counter, printed, f - 1) {
                Compressed::Advanced => {},
                Compressed::Stalled => {
                    proof {
                        lemma_stall_fails(b1, p1, m1, f as nat);
                    }
                    return false;
                },
                Compressed::Failed => {
                    return false;
                },
            }
        } else {
            proof {
                lemma_stall_fails(b1, p1, m1, f as nat);
            }
            return false;
        }
        f = f - 1;
    }
}

/// Handles every complete packet in `bin` and leaves in it only the bytes of an
/// incomplete packet at its end. Chat messages go through `existed_id_str` (the
/// recent message ids), `counter` (messages this second) and `printed` (the lines
/// to print, in order).
///
/// The call must return: `completes` excludes exactly the buffers on which the
/// handling panics or retries a packet for ever.
pub fn handle_binary_message(
    bin: &mut Vec<u8>,
    existed_id_str: &mut VecDeque<String>,
    counter: &mut u32,
    printed: &mut Vec<String>,
)
    requires
        completes(old(bin)@, model(*old(existed_id_str), *old(counter), *old(printed))),
    ensures
        run(old(bin)@, 0, model(*old(existed_id_str), *old(counter), *old(printed)), step_limit())
            == (StreamRun::Done { rest: final(bin)@, state: model(*final(existed_id_str), *final(counter), *final(printed)) }),
{
    let _ = run_packets(bin, existed_id_str, counter, printed, u64::MAX);
}

/// Like `handle_binary_message`, for any buffer: when the handling would panic
/// or never return, nothing changes and `false` comes back.
pub fn checked_handle_binary_message(
    bin: &mut Vec<u8>,
    existed_id_str: &mut VecDeque<String>,
    counter: &mut u32,
    printed: &mut Vec<String>,
) -> (handled: bool)
    ensures
        handled == completes(old(bin)@, model(*old(existed_id_str), *old(counter), *old(printed))),
        handled ==> run(old(bin)@, 0, model(*old(existed_id_str), *old(counter), *old(printed)), step_limit())
            == (StreamRun::Done { rest: final(bin)@, state: model(*final(existed_id_str), *final(counter), *final(printed)) }),
        !handled ==> *final(bin) == *old(bin) && *final(existed_id_str) == *old(existed_id_str)
            && *final(counter) == *old(counter) && *final(printed) == *old(printed),
{
    let mut trial_bin = bin.clone();
    let mut trial_ids = existed_id_str.clone();
    let mut trial_counter = *counter;
    let mut trial_printed = printed.clone();
    proof {
        assert(trial_bin@ == bin@);
        assert(texts(trial_ids@) == texts(existed_id_str@));
        assert(texts(trial_printed@) == texts(printed@));
    }
    if run_packets(&mut trial_bin, &mut trial_ids, &mut trial_counter, &mut trial_printed, u64::MAX) {
        handle_binary_message(bin, existed_id_str, counter, printed);
        true
    } else {
        false
    }
}

} // verus!
