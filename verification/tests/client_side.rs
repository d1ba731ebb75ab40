use bit_tunnel::address::{SocketAddr, SocketAddrV4};
use bit_tunnel::client::config::Config;
use bit_tunnel::client::dispatch::{open_tunnels, run_tunnels};
use bit_tunnel::client::entry::{
    entry_to_local_stream, local_stream_to_entry, run_entry, DrainEvent, EntryRun, RunAction,
    RunEvent, RunStep,
};
use bit_tunnel::client::options::{OptionError, Options};
use bit_tunnel::client::socks5::{write_dest_connected, write_dest_unreached, Destination};
use bit_tunnel::client::tunnel::{
    process_message_at, process_tunnel_message, settle, tunnel_to_server_stream, Cs, Entry, EntryMap,
    EntryMessage, Message, Plan, TaskAction, TaskEvent, TcpTunnel, Tunnel,
};
use bit_tunnel::clock::Timespec;
use bit_tunnel::protocol::{CsFrame, ScFrame};
use bit_tunnel::relay::{Drain, Shutdown};

const START: Timespec = Timespec { sec: 5, nsec: 6 };
const NOW: Timespec = Timespec { sec: 100, nsec: 200 };

fn config() -> Config {
    Config::new(b"secret".to_vec(), "127.0.0.1:1080".to_string(), "10.0.0.9:8083".to_string(), 2)
}

fn tunnel() -> Tunnel {
    TcpTunnel::new(&config(), 3).0
}

fn shown<T: std::fmt::Debug>(value: T) -> String {
    format!("{:?}", value)
}

// Takes in a message and carries out what its plan says about the entries.
fn take(msg: Message<u8>, map: &mut EntryMap<u8>) -> Plan {
    let mut alive = START;
    let plan = process_message_at(msg, NOW, &mut alive, map);
    settle(plan.forget, true, map);
    plan
}

fn plan(deliver: Option<(u32, EntryMessage)>, send: Option<CsFrame>, forget: Option<u32>) -> String {
    shown(Plan { deliver, send, forget })
}

#[test]
fn config_keeps_what_it_is_given() {
    let config = config();
    assert_eq!(config.get_key(), b"secret");
    assert_eq!(config.get_listen_address(), "127.0.0.1:1080");
    assert_eq!(config.get_server_address(), "10.0.0.9:8083");
    assert_eq!(config.get_tunnel_max(), 2);
    let copy = config.clone();
    assert_eq!(copy.get_key(), config.get_key());
    assert_eq!(copy.get_tunnel_max(), config.get_tunnel_max());
}

#[test]
fn entries_are_numbered_from_one() {
    let mut tunnel = tunnel();
    let mut ids = Vec::new();
    for sender in [10u8, 20, 30] {
        match tunnel.open_entry(sender) {
            (_, Message::CS(Cs::EntryOpen(id, s))) => {
                assert_eq!(s, sender);
                ids.push(id);
            }
            other => panic!("{:?}", other),
        }
    }
    assert_eq!(ids, vec![1, 2, 3]);
    assert!(!tunnel.is_exhausted());
}

#[test]
fn entries_speak_through_the_tunnel() {
    let (entry, _) = tunnel().open_entry(0u8);
    assert_eq!(shown(entry.write::<u8>(vec![1])), shown(Message::<u8>::CS(Cs::Data(1, vec![1]))));
    assert_eq!(
        shown(entry.connect_ip4::<u8>(vec![1])),
        shown(Message::<u8>::CS(Cs::ConnectIp4(1, vec![1])))
    );
    assert_eq!(
        shown(entry.connect_domain_name::<u8>(vec![1], 80)),
        shown(Message::<u8>::CS(Cs::ConnectDomainName(1, vec![1], 80)))
    );
    assert_eq!(shown(entry.eof::<u8>()), shown(Message::<u8>::CS(Cs::Eof(1))));
    assert_eq!(shown(entry.close::<u8>()), shown(Message::<u8>::CS(Cs::EntryClose(1))));
    assert!(matches!(entry.read(Some(EntryMessage::Eof)), EntryMessage::Eof));
    assert!(matches!(entry.read(None), EntryMessage::Close));
}

#[test]
fn messages_for_the_server_are_sent() {
    let mut map: EntryMap<u8> = EntryMap::new();
    let sent = |frame| plan(None, Some(frame), None);
    assert_eq!(shown(take(Message::CS(Cs::Heartbeat), &mut map)), sent(CsFrame::Heartbeat));
    assert_eq!(shown(take(Message::CS(Cs::EntryOpen(1, 7)), &mut map)), sent(CsFrame::EntryOpen(1)));
    assert_eq!(
        shown(take(Message::CS(Cs::ConnectIp4(1, b"1.2.3.4:5".to_vec())), &mut map)),
        sent(CsFrame::ConnectIp4(1, b"1.2.3.4:5".to_vec()))
    );
    assert_eq!(shown(take(Message::CS(Cs::Eof(1)), &mut map)), sent(CsFrame::Eof(1)));
    assert_eq!(shown(take(Message::CS(Cs::Eof(9)), &mut map)), sent(CsFrame::Eof(9)));
    assert_eq!(
        shown(take(Message::CS(Cs::Data(1, vec![4])), &mut map)),
        sent(CsFrame::Data(1, vec![4]))
    );
}

#[test]
fn a_domain_name_is_noted() {
    let mut map: EntryMap<u8> = EntryMap::new();
    take(Message::CS(Cs::EntryOpen(1, 7)), &mut map);
    let entry = map.get(1).unwrap();
    assert_eq!((entry.host.as_str(), entry.port, entry.sender), ("", 0, 7));
    let got = take(Message::CS(Cs::ConnectDomainName(1, "h\u{e9}".as_bytes().to_vec(), 80)), &mut map);
    assert_eq!(
        shown(got),
        plan(None, Some(CsFrame::ConnectDomainName(1, vec![0x68, 0xc3, 0xa9], 80)), None)
    );
    let entry = map.get(1).unwrap();
    assert_eq!((entry.host.as_str(), entry.port, entry.sender), ("h\u{e9}", 80, 7));
    take(Message::CS(Cs::ConnectDomainName(1, vec![0xFF], 81)), &mut map);
    let entry = map.get(1).unwrap();
    assert_eq!((entry.host.as_str(), entry.port, entry.sender), ("", 81, 7));
    take(Message::CS(Cs::ConnectDomainName(2, vec![65], 81)), &mut map);
    assert!(!map.contains(2));
}

#[test]
fn known_entries_are_told() {
    let mut map: EntryMap<u8> = EntryMap::new();
    take(Message::CS(Cs::EntryOpen(1, 7)), &mut map);
    take(Message::CS(Cs::EntryOpen(2, 8)), &mut map);
    let told = |message| plan(Some((1, message)), None, None);
    assert_eq!(
        shown(take(Message::SC(ScFrame::ConnectOk(1, vec![3])), &mut map)),
        told(EntryMessage::ConnectOk(vec![3]))
    );
    assert_eq!(
        shown(take(Message::SC(ScFrame::Data(1, vec![3])), &mut map)),
        told(EntryMessage::Data(vec![3]))
    );
    assert_eq!(shown(take(Message::SC(ScFrame::Eof(1)), &mut map)), told(EntryMessage::Eof));
    assert_eq!(
        shown(take(Message::SC(ScFrame::EntryClose(1)), &mut map)),
        plan(Some((1, EntryMessage::Close)), None, Some(1))
    );
    assert!(!map.contains(1));
    assert!(map.contains(2));
}

#[test]
fn unknown_entries_are_not_told() {
    let mut map: EntryMap<u8> = EntryMap::new();
    let nothing = plan(None, None, None);
    assert_eq!(shown(take(Message::SC(ScFrame::Heartbeat), &mut map)), nothing);
    assert_eq!(shown(take(Message::SC(ScFrame::ConnectOk(1, vec![])), &mut map)), nothing);
    assert_eq!(shown(take(Message::SC(ScFrame::Data(1, vec![])), &mut map)), nothing);
    assert_eq!(shown(take(Message::SC(ScFrame::Eof(1)), &mut map)), nothing);
    assert_eq!(shown(take(Message::SC(ScFrame::EntryClose(1)), &mut map)), plan(None, None, Some(1)));
}

#[test]
fn an_entry_is_closed_once() {
    let mut map: EntryMap<u8> = EntryMap::new();
    take(Message::CS(Cs::EntryOpen(1, 7)), &mut map);
    assert_eq!(
        shown(take(Message::CS(Cs::EntryClose(1)), &mut map)),
        plan(Some((1, EntryMessage::Close)), Some(CsFrame::EntryClose(1)), Some(1))
    );
    assert_eq!(shown(take(Message::CS(Cs::EntryClose(1)), &mut map)), plan(None, None, Some(1)));
    assert_eq!(shown(take(Message::SC(ScFrame::Data(1, vec![])), &mut map)), plan(None, None, None));
}

#[test]
fn the_server_is_alive_when_it_speaks() {
    let mut map: EntryMap<u8> = EntryMap::new();
    let mut alive = START;
    process_message_at(Message::CS(Cs::Heartbeat), NOW, &mut alive, &mut map);
    assert_eq!(alive, START);
    process_message_at(Message::SC(ScFrame::Heartbeat), NOW, &mut alive, &mut map);
    assert_eq!(alive, NOW);
}

#[test]
fn the_clock_is_read() {
    let mut map: EntryMap<u8> = EntryMap::new();
    let mut alive = START;
    process_tunnel_message(Message::CS(Cs::Heartbeat), &mut alive, &mut map);
    assert_eq!(alive, START);
    process_tunnel_message(Message::SC(ScFrame::Heartbeat), &mut alive, &mut map);
    assert!(alive.sec > 1_500_000_000);
    assert!(0 <= alive.nsec && alive.nsec < 1_000_000_000);
}

#[test]
fn the_loop_ends_without_messages() {
    let mut map: EntryMap<u8> = EntryMap::new();
    let mut alive = START;
    assert!(tunnel_to_server_stream(None, &mut alive, &mut map).is_none());
    let next = tunnel_to_server_stream(Some(Message::CS(Cs::EntryOpen(4, 1))), &mut alive, &mut map);
    assert_eq!(shown(next.unwrap()), plan(None, Some(CsFrame::EntryOpen(4)), None));
    assert!(map.contains(4));
    assert_eq!(alive, START);
}

#[test]
fn a_tunnel_keeps_its_connection() {
    let (_, core) = TcpTunnel::new(&config(), 0x0102_0304);
    assert_eq!(core.config().get_server_address(), "10.0.0.9:8083");
    let mut map: EntryMap<u8> = EntryMap::new();
    assert!(matches!(core.task(TaskEvent::ConnectFailed, &map), TaskAction::Sleep(1000)));
    match core.task(TaskEvent::Connected, &map) {
        TaskAction::Write(out) => assert_eq!(out, vec![1, 2, 3, 4]),
        other => panic!("{:?}", other),
    }
    assert!(matches!(core.task(TaskEvent::AnnounceFailed, &map), TaskAction::Return));
    assert!(matches!(core.task(TaskEvent::Announced, &map), TaskAction::Serve));
    for id in [5, 9, 7] {
        take(Message::CS(Cs::EntryOpen(id, 0)), &mut map);
    }
    match core.task(TaskEvent::Broken, &map) {
        TaskAction::CloseEntries(mut ids) => {
            ids.sort();
            assert_eq!(ids, vec![5, 7, 9]);
        }
        other => panic!("{:?}", other),
    }
}

#[test]
fn local_bytes_go_into_the_tunnel() {
    let (entry, _) = tunnel().open_entry(0u8);
    let pump = local_stream_to_entry::<u8>(&entry, Some(2), vec![1, 2, 0, 0]);
    assert_eq!(pump.shutdown, None);
    assert!(pump.more);
    assert_eq!(shown(pump.message), shown(entry.write::<u8>(vec![1, 2])));
    let pump = local_stream_to_entry::<u8>(&entry, Some(0), vec![0; 4]);
    assert_eq!(pump.shutdown, Some(Shutdown::Read));
    assert!(!pump.more);
    assert_eq!(shown(pump.message), shown(entry.eof::<u8>()));
    let pump = local_stream_to_entry::<u8>(&entry, None, vec![0; 4]);
    assert_eq!(pump.shutdown, Some(Shutdown::Both));
    assert!(!pump.more);
    assert_eq!(shown(pump.message), shown(entry.close::<u8>()));
}

#[test]
fn tunnel_bytes_go_to_the_program() {
    let told = |message| shown(entry_to_local_stream(DrainEvent::Told(message)));
    assert_eq!(told(EntryMessage::Data(vec![1, 2])), shown(Drain::Write(vec![1, 2])));
    assert_eq!(told(EntryMessage::Eof), shown(Drain::Stop(Shutdown::Write)));
    assert_eq!(told(EntryMessage::Close), shown(Drain::Stop(Shutdown::Both)));
    assert_eq!(told(EntryMessage::ConnectOk(vec![])), shown(Drain::Stop(Shutdown::Both)));
    assert_eq!(shown(entry_to_local_stream(DrainEvent::Written(true))), shown(Drain::Wait));
    assert_eq!(
        shown(entry_to_local_stream(DrainEvent::Written(false))),
        shown(Drain::Stop(Shutdown::Both))
    );
}

fn step(entry: &Entry, run: EntryRun, event: RunEvent) -> RunStep<u8> {
    run_entry(entry, run, event)
}

#[test]
fn a_local_connection_that_succeeds() {
    let (entry, _) = tunnel().open_entry(0u8);
    let address = SocketAddrV4 { ip: [10, 0, 0, 1], port: 80 };
    let s = step(
        &entry,
        EntryRun::AwaitDestination,
        RunEvent::Destination(Some(Destination::Ip4 { address })),
    );
    assert_eq!(s.next, EntryRun::AwaitAnswer);
    assert_eq!(
        shown(s.action),
        shown(RunAction::Send(entry.connect_ip4::<u8>(b"10.0.0.1:80".to_vec())))
    );
    let s = step(&entry, s.next, RunEvent::Answer(EntryMessage::ConnectOk(b"10.0.0.2:9".to_vec())));
    assert_eq!(s.next, EntryRun::AwaitAddress);
    assert_eq!(shown(s.action), shown(RunAction::<u8>::Resolve(b"10.0.0.2:9".to_vec())));
    let bound = SocketAddr::V4(SocketAddrV4 { ip: [10, 0, 0, 2], port: 9 });
    let s = step(&entry, s.next, RunEvent::Address(Some(bound)));
    assert_eq!(s.next, EntryRun::AwaitReply(true));
    assert_eq!(shown(s.action), shown(RunAction::<u8>::Reply(write_dest_connected(bound))));
    let s = step(&entry, s.next, RunEvent::Replied(true));
    assert_eq!(s.next, EntryRun::Relaying);
    assert!(matches!(s.action, RunAction::Relay));
    let s = step(&entry, s.next, RunEvent::Relayed);
    assert_eq!(s.next, EntryRun::Done);
    assert_eq!(s.shutdown, None);
    assert_eq!(shown(s.action), shown(RunAction::Send(entry.close::<u8>())));
}

#[test]
fn a_local_connection_to_a_name() {
    let (entry, _) = tunnel().open_entry(0u8);
    let name = Destination::DomainName { name: b"example.org".to_vec(), port: 443 };
    let s = step(&entry, EntryRun::AwaitDestination, RunEvent::Destination(Some(name)));
    assert_eq!(
        shown(s.action),
        shown(RunAction::Send(entry.connect_domain_name::<u8>(b"example.org".to_vec(), 443)))
    );
}

#[test]
fn a_local_connection_that_fails() {
    let (entry, _) = tunnel().open_entry(0u8);
    let closed = shown(RunAction::Send(entry.close::<u8>()));
    for destination in [None, Some(Destination::Unknown)] {
        let s = step(&entry, EntryRun::AwaitDestination, RunEvent::Destination(destination));
        assert_eq!((s.next, s.shutdown, shown(s.action)), (EntryRun::Done, None, closed.clone()));
    }
    let unreached = shown(RunAction::<u8>::Reply(write_dest_unreached()));
    let s = step(&entry, EntryRun::AwaitAnswer, RunEvent::Answer(EntryMessage::Close));
    assert_eq!((s.next, shown(s.action)), (EntryRun::AwaitReply(false), unreached.clone()));
    let s = step(&entry, EntryRun::AwaitAddress, RunEvent::Address(None));
    assert_eq!((s.next, shown(s.action)), (EntryRun::AwaitReply(false), unreached));
    for (connected, ok) in [(false, true), (false, false), (true, false)] {
        let s = step(&entry, EntryRun::AwaitReply(connected), RunEvent::Replied(ok));
        assert_eq!(
            (s.next, s.shutdown, shown(s.action)),
            (EntryRun::Done, Some(Shutdown::Both), closed.clone())
        );
    }
}

#[test]
fn a_failed_write_forgets_nothing() {
    let mut map: EntryMap<u8> = EntryMap::new();
    take(Message::CS(Cs::EntryOpen(1, 7)), &mut map);
    let mut alive = START;
    let plan = process_message_at(Message::CS(Cs::EntryClose(1)), NOW, &mut alive, &mut map);
    settle(plan.forget, false, &mut map);
    assert!(map.contains(1));
    settle(None, true, &mut map);
    assert!(map.contains(1));
    settle(plan.forget, true, &mut map);
    assert!(!map.contains(1));
    settle(Some(9), true, &mut map);
}

#[test]
fn the_tunnels_of_the_settings_are_made() {
    let map: EntryMap<u8> = EntryMap::new();
    let ends = open_tunnels(&config());
    assert_eq!(ends.len(), 2);
    for (i, (mut tunnel, core)) in ends.into_iter().enumerate() {
        assert_eq!(core.config().get_server_address(), "10.0.0.9:8083");
        match core.task(TaskEvent::Connected, &map) {
            TaskAction::Write(out) => assert_eq!(out, vec![0, 0, 0, i as u8]),
            other => panic!("{:?}", other),
        }
        assert!(matches!(tunnel.open_entry(0u8).1, Message::CS(Cs::EntryOpen(1, 0))));
    }
    assert!(open_tunnels(&Config::new(vec![], String::new(), String::new(), 0)).is_empty());
}

fn tunnels(number: u32) -> Vec<Tunnel> {
    let config = Config::new(vec![], String::new(), String::new(), number);
    open_tunnels(&config).into_iter().map(|ends| ends.0).collect()
}

#[test]
fn tunnels_take_turns() {
    let mut tunnels = tunnels(3);
    let mut dispatch = run_tunnels(3);
    let mut turns = Vec::new();
    for sender in 0..7u8 {
        assert_eq!(dispatch.next(), sender as usize % 3);
        match dispatch.accept(&mut tunnels, Some(sender)) {
            Some((turn, _, Message::CS(Cs::EntryOpen(id, s)))) if s == sender => {
                turns.push((turn, id))
            }
            other => panic!("{:?}", other),
        }
    }
    assert_eq!(turns, vec![(0, 1), (1, 1), (2, 1), (0, 2), (1, 2), (2, 2), (0, 3)]);
}

#[test]
fn a_failed_accept_does_not_move_the_turn() {
    let mut tunnels = tunnels(2);
    let mut dispatch = run_tunnels(2);
    assert!(dispatch.accept::<u8>(&mut tunnels, None).is_none());
    assert_eq!(dispatch.next(), 0);
    assert_eq!(dispatch.accept(&mut tunnels, Some(0u8)).unwrap().0, 0);
    assert!(dispatch.accept::<u8>(&mut tunnels, None).is_none());
    assert_eq!(dispatch.next(), 1);
    match dispatch.accept(&mut tunnels, Some(0u8)) {
        Some((1, _, Message::CS(Cs::EntryOpen(1, 0)))) => {}
        other => panic!("{:?}", other),
    }
}

#[test]
fn the_current_time_is_told() {
    let now = Timespec::now();
    assert!(now.sec > 1_500_000_000);
    assert!(0 <= now.nsec && now.nsec < 1_000_000_000);
}

fn options(tunnel_max: Option<&str>) -> Options {
    Options {
        server: "10.0.0.9:8083".to_string(),
        tunnel_max: tunnel_max.map(|s| s.to_string()),
        listen: None,
        log: None,
        key: None,
    }
}

#[test]
fn client_options_have_defaults() {
    let settings = options(None).settings().unwrap();
    assert_eq!(settings.config.get_server_address(), "10.0.0.9:8083");
    assert_eq!(settings.config.get_tunnel_max(), 2);
    assert_eq!(settings.config.get_listen_address(), "127.0.0.1:1080");
    assert_eq!(settings.config.get_key(), b"123456");
    assert_eq!(settings.log_path, "/var/log/bit-tunnel/client.log");
}

#[test]
fn client_options_are_taken() {
    let mut options = options(Some("+7"));
    options.listen = Some("0.0.0.0:1".to_string());
    options.log = Some("log".to_string());
    options.key = Some("k\u{e9}y".to_string());
    let settings = options.settings().unwrap();
    assert_eq!(settings.config.get_tunnel_max(), 7);
    assert_eq!(settings.config.get_listen_address(), "0.0.0.0:1");
    assert_eq!(settings.config.get_key(), "k\u{e9}y".as_bytes());
    assert_eq!(settings.log_path, "log");
    assert_eq!(self::options(Some("4294967295")).settings().unwrap().config.get_tunnel_max(), u32::MAX);
}

#[test]
fn a_client_needs_tunnels() {
    for wrong in ["0", "", "+", "-1", "two", "1x", " 1", "4294967296", "99999999999", "++1"] {
        let error = options(Some(wrong)).settings().unwrap_err();
        assert_eq!(error, OptionError::TunnelMax);
        assert_eq!(error.message(), "tunnel-count must greater than 0");
    }
}
