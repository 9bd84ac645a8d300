# bili_danmu

A client for the live-room chat ("danmu") protocol, verified with Verus.

- `src/packet.rs` — the 16-byte big-endian packet header: framing and reading back.
- `src/codec.rs` — the calls into brotli, serde_json and UTF-8 decoding, with the
  contracts that the rest of the library is proved against.
- `src/danmu.rs` — one server notification: chat-message recognition, the window
  of recent message ids that drops repeats, counting and the printed line.
- `src/stream.rs` — the receive stream: complete packets are handled, an incomplete
  one stays pending, compressed packets are unpacked and handled as streams of
  their own. `run` specifies it; `handle_binary_message` implements it.
- `src/session.rs` — addresses and the room information, the authentication payload, the heartbeat packet
  and the per-second statistics, and the law that frames are reassembled.
- `app/main.rs` — the program: command line, HTTP request, websocket, timers, stdin.
