use bit_tunnel::port::{Tunnel, TunnelMsg, TunnelPortMsg};

fn shown<T: std::fmt::Debug>(value: T) -> String {
    format!("{:?}", value)
}

#[test]
fn ports_have_ids_of_their_own() {
    let mut tunnel = Tunnel::starting_at(1);
    let (w1, r1, m1) = tunnel.open_port(10u8);
    let (w2, _, m2) = tunnel.open_port(20u8);
    assert_eq!(shown(m1), shown(TunnelMsg::CSOpenPort(1, 10u8)));
    assert_eq!(shown(m2), shown(TunnelMsg::CSOpenPort(2, 20u8)));
    assert_eq!(shown(w1.drop::<u8>()), shown(TunnelMsg::<u8>::TunnelPortDrop(1)));
    assert_eq!(shown(r1.drop::<u8>()), shown(TunnelMsg::<u8>::TunnelPortDrop(1)));
    assert_eq!(shown(w2.drop::<u8>()), shown(TunnelMsg::<u8>::TunnelPortDrop(2)));
    assert!(!tunnel.is_exhausted());
    assert!(Tunnel::starting_at(u32::MAX).is_exhausted());
}

#[test]
fn ports_speak_through_the_tunnel() {
    let (w, _, _) = Tunnel::starting_at(3).open_port(0u8);
    assert_eq!(shown(w.write::<u8>(vec![1])), shown(TunnelMsg::<u8>::CSData(3, vec![1])));
    assert_eq!(shown(w.connect::<u8>(vec![1])), shown(TunnelMsg::<u8>::CSConnect(3, vec![1])));
    assert_eq!(
        shown(w.connect_domain_name::<u8>(vec![1], 80)),
        shown(TunnelMsg::<u8>::CSConnectDN(3, vec![1], 80))
    );
    assert_eq!(shown(w.shutdown_write::<u8>()), shown(TunnelMsg::<u8>::CSShutdownWrite(3)));
    assert_eq!(shown(w.close::<u8>()), shown(TunnelMsg::<u8>::CSClosePort(3)));
}

#[test]
fn a_port_without_a_channel_is_closed() {
    let (_, r, _) = Tunnel::starting_at(3).open_port(0u8);
    assert!(matches!(r.read(None), TunnelPortMsg::ClosePort));
    assert!(matches!(r.read(Some(TunnelPortMsg::ShutdownWrite)), TunnelPortMsg::ShutdownWrite));
    match r.read(Some(TunnelPortMsg::Data(vec![1]))) {
        TunnelPortMsg::Data(data) => assert_eq!(data, vec![1]),
        other => panic!("{:?}", other),
    }
}
