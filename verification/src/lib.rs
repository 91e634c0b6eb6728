//! A relay engine that makes a remote game server appear as a host on the
//! local subnet: it validates a user-entered target address, keeps a small
//! controller state machine that starts, stops and hot-swaps a UDP discovery
//! relay and a TCP connection relay, and decides, step by step, what each
//! relay loop sends and forwards.  The surrounding process performs the
//! actual socket work and persistence; everything that decides or computes
//! lives here, with a proved contract.

pub mod addr;
pub mod ui;
pub mod wc3proxy;
