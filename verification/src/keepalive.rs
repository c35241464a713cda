//! The decisions of a message-listening websocket: answer pings, note
//! pongs, ping the peer when it has been quiet, close when it stops
//! answering or sends anything else, and forward the context's messages.

use vstd::prelude::*;

verus! {

/// How long the peer may go without a pong before the socket closes (ms).
pub const PONG_TIMEOUT_MS: u64 = 10000;

/// How long after the last ping another ping is sent (ms).
pub const PING_INTERVAL_MS: u64 = 5000;

/// The keepalive state: when the last ping was sent and the last pong
/// came (milliseconds on a monotonic clock).
#[derive(Debug, PartialEq, Eq, Structural, Clone, Copy)]
pub struct WsKeepalive {
    /// When the last ping was sent.
    pub last_ping_ms: u64,
    /// When the last pong came.
    pub last_pong_ms: u64,
}

/// What happened on the socket.
#[derive(Debug)]
pub enum WsEvent {
    /// The peer pinged, with this payload.
    Ping(Vec<u8>),
    /// The peer answered a ping.
    Pong,
    /// The peer sent anything else (text, binary or close): sending to
    /// this socket is not allowed.
    Other,
    /// The timer ticked.
    Tick,
    /// The context has an encoded message for the listener.
    Message(Vec<u8>),
    /// A send failed, or the peer's stream ended.
    Failed,
}

/// A frame to send.
#[derive(Debug)]
pub enum WsFrame {
    /// A ping with this payload.
    Ping(Vec<u8>),
    /// A pong with this payload.
    Pong(Vec<u8>),
    /// Binary data.
    Binary(Vec<u8>),
}

/// What to do next.
#[derive(Debug)]
pub enum WsAction {
    /// Send a frame.
    Send(WsFrame),
    /// Close the socket.
    Close,
    /// Nothing.
    Wait,
}

/// More than `limit` milliseconds passed from `since` to `now`.
pub open spec fn elapsed_over(since: u64, now: u64, limit: u64) -> bool {
    now > since && now - since > limit
}

impl WsKeepalive {
    /// The state of a socket opened at `now`.
    pub fn new(now_ms: u64) -> (r: Self)
        ensures
            r.last_ping_ms == now_ms,
            r.last_pong_ms == now_ms,
    {
        WsKeepalive { last_ping_ms: now_ms, last_pong_ms: now_ms }
    }
}

/// One step of the socket: the next state and the action for an event at
/// `now_ms`.
pub fn ws_step(st: WsKeepalive, ev: WsEvent, now_ms: u64) -> (r: (WsKeepalive, WsAction))
    ensures
        match ev {
            WsEvent::Ping(b) => r.0 == st && (r.1 matches WsAction::Send(WsFrame::Pong(p)) && p@ == b@),
            WsEvent::Pong => r.0 == (WsKeepalive { last_pong_ms: now_ms, ..st }) && r.1 is Wait,
            WsEvent::Other => r.0 == st && r.1 is Close,
            WsEvent::Failed => r.0 == st && r.1 is Close,
            WsEvent::Message(m) => r.0 == st && (r.1 matches WsAction::Send(WsFrame::Binary(d)) && d@ == m@),
            WsEvent::Tick => if elapsed_over(st.last_pong_ms, now_ms, PONG_TIMEOUT_MS) {
                r.0 == st && r.1 is Close
            } else if elapsed_over(st.last_ping_ms, now_ms, PING_INTERVAL_MS) {
                r.0 == (WsKeepalive { last_ping_ms: now_ms, ..st })
                    && (r.1 matches WsAction::Send(WsFrame::Ping(p)) && p@.len() == 0)
            } else {
                r.0 == st && r.1 is Wait
            },
        },
{
    match ev {
        WsEvent::Ping(b) => (st, WsAction::Send(WsFrame::Pong(b))),
        WsEvent::Pong => (WsKeepalive { last_ping_ms: st.last_ping_ms, last_pong_ms: now_ms }, WsAction::Wait),
        WsEvent::Other => (st, WsAction::Close),
        WsEvent::Failed => (st, WsAction::Close),
        WsEvent::Message(m) => (st, WsAction::Send(WsFrame::Binary(m))),
        WsEvent::Tick => {
            if now_ms > st.last_pong_ms && now_ms - st.last_pong_ms > PONG_TIMEOUT_MS {
                (st, WsAction::Close)
            } else if now_ms > st.last_ping_ms && now_ms - st.last_ping_ms > PING_INTERVAL_MS {
                (WsKeepalive { last_ping_ms: now_ms, last_pong_ms: st.last_pong_ms }, WsAction::Send(WsFrame::Ping(Vec::new())))
            } else {
                (st, WsAction::Wait)
            }
        },
    }
}

} // verus!
