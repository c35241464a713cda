use voidmerge::keepalive::{ws_step, WsAction, WsEvent, WsFrame, WsKeepalive};

#[test]
fn keepalive_steps() {
    let st = WsKeepalive::new(1000);
    let (s1, a) = ws_step(st, WsEvent::Ping(vec![7]), 1100);
    assert_eq!(s1, st);
    assert!(matches!(a, WsAction::Send(WsFrame::Pong(ref p)) if p == &vec![7u8]));
    let (s2, a) = ws_step(s1, WsEvent::Tick, 4000);
    assert_eq!(s2, st);
    assert!(matches!(a, WsAction::Wait));
    let (s3, a) = ws_step(s2, WsEvent::Tick, 6001);
    assert_eq!(s3.last_ping_ms, 6001);
    assert!(matches!(a, WsAction::Send(WsFrame::Ping(ref p)) if p.is_empty()));
    let (s4, a) = ws_step(s3, WsEvent::Pong, 7000);
    assert_eq!(s4.last_pong_ms, 7000);
    assert!(matches!(a, WsAction::Wait));
    let (s5, a) = ws_step(s4, WsEvent::Tick, 17000);
    assert_eq!(s5.last_ping_ms, 17000);
    assert!(matches!(a, WsAction::Send(WsFrame::Ping(_))));
    let (_, a) = ws_step(s4, WsEvent::Tick, 17001);
    assert!(matches!(a, WsAction::Close));
    let (_, a) = ws_step(s4, WsEvent::Other, 7001);
    assert!(matches!(a, WsAction::Close));
    let (_, a) = ws_step(s4, WsEvent::Message(vec![1, 2]), 7001);
    assert!(matches!(a, WsAction::Send(WsFrame::Binary(ref d)) if d == &vec![1u8, 2]));
}
