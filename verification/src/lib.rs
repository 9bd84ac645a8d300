//! A client library for the live-room message ("danmu") protocol:
//! packet framing, the receive stream with its carry-over buffer,
//! message de-duplication, and the per-second statistics.

pub mod packet;
pub mod codec;
pub mod danmu;
pub mod stream;
pub mod session;
