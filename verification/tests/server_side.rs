use bit_tunnel::clock::Timespec;
use bit_tunnel::protocol::{CsFrame, ScFrame};
use bit_tunnel::relay::{Drain, Shutdown};
use bit_tunnel::server::config::Config;
use bit_tunnel::server::entry::{
    dest_stream_to_entry, entry_task, entry_to_dest_stream, DrainEvent, EntryRun, RunAction,
    RunEvent, Target,
};
use bit_tunnel::server::options::Options;
use bit_tunnel::server::tunnel::{
    open_entry, process_message_at, process_tunnel_message, settle, tunnel_to_client_stream, Entry,
    EntryMap, EntryMessage, Message, Plan, Sc, TaskAction, TaskEvent, TcpTunnel,
};

const START: Timespec = Timespec { sec: 5, nsec: 6 };
const NOW: Timespec = Timespec { sec: 100, nsec: 200 };

fn shown<T: std::fmt::Debug>(value: T) -> String {
    format!("{:?}", value)
}

// Takes in a message and carries out what its plan says about the entries.
fn take(msg: Message, map: &mut EntryMap<u8>) -> Plan {
    let mut alive = START;
    let plan = process_message_at(msg, NOW, &mut alive, map);
    if let Some(id) = plan.open {
        open_entry(1, id, 7, map);
    }
    settle(plan.forget, true, map);
    plan
}

fn plan(
    open: Option<u32>,
    deliver: Option<(u32, EntryMessage)>,
    send: Option<ScFrame>,
    forget: Option<u32>,
) -> String {
    shown(Plan { open, deliver, send, forget })
}

fn entry() -> Entry {
    let mut map: EntryMap<u8> = EntryMap::new();
    open_entry(1, 4, 7, &mut map)
}

#[test]
fn server_config_keeps_what_it_is_given() {
    let config = Config::new(b"secret".to_vec(), "0.0.0.0:8083".to_string());
    assert_eq!(config.get_key(), b"secret");
    assert_eq!(config.get_listen_address(), "0.0.0.0:8083");
    assert_eq!(config.clone().get_key(), b"secret");
    assert_eq!(TcpTunnel::new(&config).config().get_listen_address(), "0.0.0.0:8083");
}

#[test]
fn a_heartbeat_is_answered() {
    let mut map: EntryMap<u8> = EntryMap::new();
    assert_eq!(
        shown(take(Message::CS(CsFrame::Heartbeat), &mut map)),
        plan(None, None, Some(ScFrame::Heartbeat), None)
    );
}

#[test]
fn the_client_opens_entries() {
    let mut map: EntryMap<u8> = EntryMap::new();
    assert_eq!(
        shown(take(Message::CS(CsFrame::EntryOpen(4)), &mut map)),
        plan(Some(4), None, None, None)
    );
    assert_eq!(map.get(4).unwrap().sender, 7);
}

#[test]
fn entries_hear_the_client() {
    let mut map: EntryMap<u8> = EntryMap::new();
    take(Message::CS(CsFrame::EntryOpen(4)), &mut map);
    take(Message::CS(CsFrame::EntryOpen(5)), &mut map);
    let told = |message| plan(None, Some((4, message)), None, None);
    assert_eq!(
        shown(take(Message::CS(CsFrame::ConnectIp4(4, vec![1])), &mut map)),
        told(EntryMessage::ConnectIp(vec![1]))
    );
    assert_eq!(
        shown(take(Message::CS(CsFrame::ConnectDomainName(4, vec![1], 80)), &mut map)),
        told(EntryMessage::ConnectDomainName(vec![1], 80))
    );
    assert_eq!(
        shown(take(Message::CS(CsFrame::Data(4, vec![1])), &mut map)),
        told(EntryMessage::Data(vec![1]))
    );
    assert_eq!(shown(take(Message::CS(CsFrame::Eof(4)), &mut map)), told(EntryMessage::Eof));
    assert_eq!(
        shown(take(Message::CS(CsFrame::EntryClose(4)), &mut map)),
        plan(None, Some((4, EntryMessage::Close)), None, Some(4))
    );
    assert!(!map.contains(4));
    assert!(map.contains(5));
    assert_eq!(
        shown(take(Message::CS(CsFrame::Data(4, vec![1])), &mut map)),
        plan(None, None, None, None)
    );
}

#[test]
fn the_client_hears_entries() {
    let mut map: EntryMap<u8> = EntryMap::new();
    let sent = |frame| plan(None, None, Some(frame), None);
    assert_eq!(
        shown(take(Message::SC(Sc::ConnectOk(4, vec![1])), &mut map)),
        sent(ScFrame::ConnectOk(4, vec![1]))
    );
    assert_eq!(
        shown(take(Message::SC(Sc::Data(4, vec![1])), &mut map)),
        sent(ScFrame::Data(4, vec![1]))
    );
    assert_eq!(shown(take(Message::SC(Sc::Eof(4)), &mut map)), sent(ScFrame::Eof(4)));
    let nothing = plan(None, None, None, None);
    assert_eq!(shown(take(Message::SC(Sc::Heartbeat), &mut map)), nothing);
    assert_eq!(shown(take(Message::SC(Sc::CloseTunnel), &mut map)), nothing);
}

#[test]
fn the_client_hears_once_that_an_entry_closed() {
    let mut map: EntryMap<u8> = EntryMap::new();
    take(Message::CS(CsFrame::EntryOpen(4)), &mut map);
    assert_eq!(
        shown(take(Message::SC(Sc::EntryClose(4)), &mut map)),
        plan(None, Some((4, EntryMessage::Close)), Some(ScFrame::EntryClose(4)), Some(4))
    );
    assert_eq!(
        shown(take(Message::SC(Sc::EntryClose(4)), &mut map)),
        plan(None, None, None, Some(4))
    );
}

#[test]
fn a_failed_write_keeps_the_entry() {
    let mut map: EntryMap<u8> = EntryMap::new();
    take(Message::CS(CsFrame::EntryOpen(4)), &mut map);
    let mut alive = START;
    let plan = process_message_at(Message::SC(Sc::EntryClose(4)), NOW, &mut alive, &map);
    settle(plan.forget, false, &mut map);
    assert!(map.contains(4));
    settle(plan.forget, true, &mut map);
    assert!(!map.contains(4));
}

#[test]
fn the_client_is_alive_when_it_speaks() {
    let map: EntryMap<u8> = EntryMap::new();
    let mut alive = START;
    process_message_at(Message::SC(Sc::Heartbeat), NOW, &mut alive, &map);
    assert_eq!(alive, START);
    process_message_at(Message::CS(CsFrame::Eof(3)), NOW, &mut alive, &map);
    assert_eq!(alive, NOW);
    process_tunnel_message(Message::CS(CsFrame::Heartbeat), &mut alive, &map);
    assert!(alive.sec > 1_500_000_000);
}

#[test]
fn the_loop_ends_when_the_tunnel_closes() {
    let map: EntryMap<u8> = EntryMap::new();
    let mut alive = START;
    assert!(tunnel_to_client_stream(None, &mut alive, &map).is_none());
    assert!(tunnel_to_client_stream(Some(Message::SC(Sc::CloseTunnel)), &mut alive, &map).is_none());
    let next = tunnel_to_client_stream(Some(Message::SC(Sc::Eof(2))), &mut alive, &map);
    assert_eq!(shown(next.unwrap()), plan(None, None, Some(ScFrame::Eof(2)), None));
    assert_eq!(alive, START);
}

#[test]
fn a_server_tunnel_goes_its_way() {
    let tunnel = TcpTunnel::new(&Config::new(vec![], String::new()));
    let mut map: EntryMap<u8> = EntryMap::new();
    assert!(matches!(tunnel.task(TaskEvent::TunnelIdFailed, &map), TaskAction::Return));
    assert!(matches!(
        tunnel.task(TaskEvent::TunnelId([1, 2, 3, 4]), &map),
        TaskAction::Serve(0x0102_0304)
    ));
    assert!(matches!(
        tunnel.task(TaskEvent::ReadEnded, &map),
        TaskAction::SendAndShutdown(Message::SC(Sc::CloseTunnel))
    ));
    assert!(matches!(tunnel.task(TaskEvent::WriteEnded, &map), TaskAction::Shutdown));
    take(Message::CS(CsFrame::EntryOpen(4)), &mut map);
    take(Message::CS(CsFrame::EntryOpen(2)), &mut map);
    match tunnel.task(TaskEvent::BothEnded, &map) {
        TaskAction::CloseEntries(mut ids) => {
            ids.sort();
            assert_eq!(ids, vec![2, 4]);
        }
        other => panic!("{:?}", other),
    }
}

#[test]
fn server_entries_speak_through_the_tunnel() {
    let entry = entry();
    assert_eq!(shown(entry.connect_ok(vec![1])), shown(Message::SC(Sc::ConnectOk(4, vec![1]))));
    assert_eq!(shown(entry.write(vec![1])), shown(Message::SC(Sc::Data(4, vec![1]))));
    assert_eq!(shown(entry.eof()), shown(Message::SC(Sc::Eof(4))));
    assert_eq!(shown(entry.close()), shown(Message::SC(Sc::EntryClose(4))));
    assert!(matches!(entry.read(None), EntryMessage::Close));
    assert!(matches!(entry.read(Some(EntryMessage::Eof)), EntryMessage::Eof));
}

#[test]
fn destination_bytes_go_into_the_tunnel() {
    let entry = entry();
    let pump = dest_stream_to_entry(&entry, Some(1), vec![9, 0, 0]);
    assert!(pump.more && pump.shutdown.is_none());
    assert_eq!(shown(pump.message), shown(entry.write(vec![9])));
    let pump = dest_stream_to_entry(&entry, Some(0), vec![0; 3]);
    assert!(!pump.more && pump.shutdown == Some(Shutdown::Read));
    assert_eq!(shown(pump.message), shown(entry.eof()));
    let pump = dest_stream_to_entry(&entry, None, vec![0; 3]);
    assert!(!pump.more && pump.shutdown == Some(Shutdown::Both));
    assert_eq!(shown(pump.message), shown(entry.close()));
}

#[test]
fn tunnel_bytes_go_to_the_destination() {
    let told = |message| shown(entry_to_dest_stream(DrainEvent::Told(message)));
    assert_eq!(told(EntryMessage::Data(vec![1])), shown(Drain::Write(vec![1])));
    assert_eq!(told(EntryMessage::Eof), shown(Drain::Stop(Shutdown::Write)));
    assert_eq!(told(EntryMessage::Close), shown(Drain::Stop(Shutdown::Both)));
    assert_eq!(told(EntryMessage::ConnectIp(vec![])), shown(Drain::Stop(Shutdown::Both)));
    assert_eq!(shown(entry_to_dest_stream(DrainEvent::Written(true))), shown(Drain::Wait));
    assert_eq!(
        shown(entry_to_dest_stream(DrainEvent::Written(false))),
        shown(Drain::Stop(Shutdown::Both))
    );
}

#[test]
fn an_entry_that_reaches_its_destination() {
    let entry = entry();
    let s = entry_task(
        &entry,
        EntryRun::AwaitTarget,
        RunEvent::Told(EntryMessage::ConnectIp(b"10.0.0.1:80".to_vec())),
    );
    assert_eq!(s.next, EntryRun::AwaitConnect);
    match s.action {
        RunAction::Connect(Target::Address(address)) => assert_eq!(address, "10.0.0.1:80"),
        other => panic!("{:?}", other),
    }
    let s = entry_task(&entry, s.next, RunEvent::Connected(true));
    assert_eq!(s.next, EntryRun::AwaitLocalAddress);
    assert!(matches!(s.action, RunAction::FindLocalAddress));
    let s = entry_task(&entry, s.next, RunEvent::LocalAddress(Some(b"10.0.0.2:9".to_vec())));
    assert_eq!(s.next, EntryRun::Relaying);
    assert_eq!(shown(s.action), shown(RunAction::Send(entry.connect_ok(b"10.0.0.2:9".to_vec()))));
    let s = entry_task(&entry, s.next, RunEvent::Relayed);
    assert_eq!(s.next, EntryRun::Done);
    assert_eq!(shown(s.action), shown(RunAction::Send(entry.close())));
}

#[test]
fn an_entry_to_a_name() {
    let name = EntryMessage::ConnectDomainName("\u{e9}xample".as_bytes().to_vec(), 443);
    let s = entry_task(&entry(), EntryRun::AwaitTarget, RunEvent::Told(name));
    match s.action {
        RunAction::Connect(Target::Host(name, 443)) => assert_eq!(name, "\u{e9}xample"),
        other => panic!("{:?}", other),
    }
}

#[test]
fn an_entry_that_fails_is_closed() {
    let entry = entry();
    let closed = shown(RunAction::Send(entry.close()));
    for (run, event) in [
        (EntryRun::AwaitTarget, RunEvent::Told(EntryMessage::Close)),
        (EntryRun::AwaitTarget, RunEvent::Told(EntryMessage::Data(vec![1]))),
        (EntryRun::AwaitConnect, RunEvent::Connected(false)),
        (EntryRun::AwaitLocalAddress, RunEvent::LocalAddress(None)),
    ] {
        let s = entry_task(&entry, run, event);
        assert_eq!((s.next, shown(s.action)), (EntryRun::Done, closed.clone()));
    }
}

#[test]
fn server_options_have_defaults() {
    let options = Options { listen: "0.0.0.0:8083".to_string(), log: None, key: None };
    let settings = options.settings();
    assert_eq!(settings.config.get_listen_address(), "0.0.0.0:8083");
    assert_eq!(settings.config.get_key(), b"123456");
    assert_eq!(settings.log_path, "/var/log/bit-tunnel/server.log");
}

#[test]
fn server_options_are_taken() {
    let options = Options {
        listen: "0.0.0.0:1".to_string(),
        log: Some("log".to_string()),
        key: Some("key".to_string()),
    };
    let settings = options.settings();
    assert_eq!(settings.config.get_key(), b"key");
    assert_eq!(settings.log_path, "log");
}
