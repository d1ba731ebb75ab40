use bit_tunnel::client;
use bit_tunnel::client::config::Config;
use bit_tunnel::clock::Timespec;
use bit_tunnel::protocol::{CsCodes, CsFrame, Protocol, ScCodes, ScFrame, Want};
use bit_tunnel::relay::Drain;
use bit_tunnel::server;

const NOW: Timespec = Timespec { sec: 1, nsec: 0 };

fn protocol() -> Protocol {
    Protocol {
        cs: CsCodes {
            heartbeat: 7,
            entry_open: 1,
            entry_close: 2,
            eof: 3,
            connect_domain_name: 5,
            connect_ip4: 4,
            data: 6,
        },
        sc: ScCodes { heartbeat: 5, entry_close: 1, eof: 2, connect_ok: 3, data: 4 },
        verify_data: vec![1],
        ctr_size: 1,
    }
}

// Stands for a cipher.
fn flip(data: &[u8]) -> Vec<u8> {
    data.iter().map(|b| b ^ 0x55).collect()
}

#[test]
fn bytes_of_mixed_entries_reach_their_destinations() {
    let protocol = protocol();
    let config = Config::new(vec![], String::new(), String::new(), 1);
    let (mut tunnel, _) = client::tunnel::TcpTunnel::new(&config, 0);
    let (a, open_a) = tunnel.open_entry(0u8);
    let (b, open_b) = tunnel.open_entry(0u8);
    let messages = vec![
        open_a,
        open_b,
        a.write(b"he".to_vec()),
        b.write(b"wor".to_vec()),
        client::tunnel::Message::CS(client::tunnel::Cs::Heartbeat),
        a.write(b"llo".to_vec()),
        b.write(b"ld".to_vec()),
        a.eof(),
        b.close(),
        b.write(b"late".to_vec()),
    ];

    let mut at_client: client::tunnel::EntryMap<u8> = client::tunnel::EntryMap::new();
    let mut alive = NOW;
    let mut wire = Vec::new();
    for message in messages {
        let plan = client::tunnel::process_message_at(message, NOW, &mut alive, &mut at_client);
        if let Some(frame) = plan.send {
            let sealed = match frame.payload().map(|data| flip(data)) {
                Some(data) => frame.with_payload(data),
                None => frame,
            };
            wire.extend(sealed.pack(&protocol.cs));
        }
        client::tunnel::settle(plan.forget, true, &mut at_client);
    }

    let mut at_server: server::tunnel::EntryMap<u8> = server::tunnel::EntryMap::new();
    let mut got: Vec<Vec<u8>> = vec![vec![]; 3];
    let mut reader = server::stream::CsReader::Op;
    let mut at = 0;
    loop {
        let reply = match reader.want(&protocol) {
            Want::Read(n) if at + n <= wire.len() => {
                at += n;
                wire[at - n..at].to_vec()
            }
            Want::Decrypt(data) => flip(data),
            _ => break,
        };
        let (next, output) =
            server::stream::client_stream_to_tunnel(&protocol, reader, reply).unwrap();
        reader = next;
        if let server::stream::CsOutput::Message(frame) = output {
            let message = server::tunnel::Message::CS(frame);
            let plan = server::tunnel::process_message_at(message, NOW, &mut alive, &at_server);
            if let Some(id) = plan.open {
                server::tunnel::open_entry(0, id, 0, &mut at_server);
            }
            if let Some((id, told)) = plan.deliver {
                let event = server::entry::DrainEvent::Told(told);
                if let Drain::Write(buf) = server::entry::entry_to_dest_stream(event) {
                    got[id as usize].extend(buf);
                }
            }
            server::tunnel::settle(plan.forget, true, &mut at_server);
        }
    }
    assert_eq!(at, wire.len());
    assert_eq!(got, vec![vec![], b"hello".to_vec(), b"world".to_vec()]);
}

#[test]
fn reads_are_carried_whole() {
    let config = Config::new(vec![], String::new(), String::new(), 1);
    let (mut tunnel, _) = client::tunnel::TcpTunnel::new(&config, 0);
    let (local, _) = tunnel.open_entry(0u8);
    let mut at_server: server::tunnel::EntryMap<u8> = server::tunnel::EntryMap::new();
    let remote = server::tunnel::open_entry(0, 1, 0, &mut at_server);
    let mut up = Vec::new();
    let mut down = Vec::new();
    for (read, buf) in [(Some(2), b"he.."), (Some(3), b"llo."), (Some(0), b"....")] {
        let pump = client::entry::local_stream_to_entry::<u8>(&local, read, buf.to_vec());
        match pump.message {
            client::tunnel::Message::CS(client::tunnel::Cs::Data(1, buf)) => up.extend(buf),
            client::tunnel::Message::CS(client::tunnel::Cs::Eof(1)) => assert!(!pump.more),
            other => panic!("{:?}", other),
        }
        let pump = server::entry::dest_stream_to_entry(&remote, read, buf.to_vec());
        match pump.message {
            server::tunnel::Message::SC(server::tunnel::Sc::Data(1, buf)) => down.extend(buf),
            server::tunnel::Message::SC(server::tunnel::Sc::Eof(1)) => assert!(!pump.more),
            other => panic!("{:?}", other),
        }
    }
    assert_eq!(up, b"hello".to_vec());
    assert_eq!(down, b"hello".to_vec());
}

#[test]
fn bytes_of_a_destination_reach_the_program() {
    let protocol = protocol();
    let mut at_server: server::tunnel::EntryMap<u8> = server::tunnel::EntryMap::new();
    let entry = server::tunnel::open_entry(0, 1, 0, &mut at_server);
    let mut at_client: client::tunnel::EntryMap<u8> = client::tunnel::EntryMap::new();
    let mut alive = NOW;
    let open = client::tunnel::Message::CS(client::tunnel::Cs::EntryOpen(1, 0u8));
    client::tunnel::process_message_at(open, NOW, &mut alive, &mut at_client);

    let mut wire = Vec::new();
    for message in [entry.write(b"ab".to_vec()), entry.write(b"c".to_vec()), entry.eof()] {
        let plan = server::tunnel::process_message_at(message, NOW, &mut alive, &at_server);
        if let Some(frame) = plan.send {
            let sealed = match frame.payload().map(|data| flip(data)) {
                Some(data) => frame.with_payload(data),
                None => frame,
            };
            wire.extend(sealed.pack(&protocol.sc));
        }
    }

    let mut got = Vec::new();
    let mut reader = client::stream::ScReader::Op;
    let mut at = 0;
    loop {
        let reply = match reader.want(&protocol) {
            Want::Read(n) if at + n <= wire.len() => {
                at += n;
                wire[at - n..at].to_vec()
            }
            Want::Decrypt(data) => flip(data),
            _ => break,
        };
        let (next, output) = client::stream::server_stream_to_tunnel(&protocol, reader, reply);
        reader = next;
        if let client::stream::ScOutput::Message(frame) = output {
            let message = client::tunnel::Message::SC(frame);
            let plan =
                client::tunnel::process_message_at(message, NOW, &mut alive, &mut at_client);
            if let Some((_, told)) = plan.deliver {
                let event = client::entry::DrainEvent::Told(told);
                if let Drain::Write(buf) = client::entry::entry_to_local_stream(event) {
                    got.extend(buf);
                }
            }
        }
    }
    assert_eq!(got, b"abc".to_vec());
}

#[test]
fn messages_of_the_server_come_between() {
    let mut map: server::tunnel::EntryMap<u8> = server::tunnel::EntryMap::new();
    let entry = server::tunnel::open_entry(0, 1, 0, &mut map);
    let from_client = |frame| server::tunnel::Message::CS(frame);
    let mixed = vec![
        entry.connect_ok(vec![9]),
        from_client(CsFrame::Data(1, vec![1])),
        server::tunnel::Message::SC(server::tunnel::Sc::Heartbeat),
        entry.write(vec![8]),
        from_client(CsFrame::Data(1, vec![2, 3])),
        entry.eof(),
        from_client(CsFrame::EntryClose(1)),
        from_client(CsFrame::Data(1, vec![4])),
    ];
    let mut alive = NOW;
    let mut told = Vec::new();
    for message in mixed {
        let plan = server::tunnel::process_message_at(message, NOW, &mut alive, &map);
        if let Some((1, news)) = plan.deliver {
            told.push(format!("{:?}", news));
        }
        server::tunnel::settle(plan.forget, true, &mut map);
    }
    assert_eq!(told, vec!["Data([1])", "Data([2, 3])", "Close"]);
}

#[test]
fn a_closed_entry_hears_the_start() {
    let mut map: server::tunnel::EntryMap<u8> = server::tunnel::EntryMap::new();
    let entry = server::tunnel::open_entry(0, 1, 0, &mut map);
    let mixed = vec![
        server::tunnel::Message::CS(CsFrame::Data(1, vec![1])),
        entry.close(),
        server::tunnel::Message::CS(CsFrame::Data(1, vec![2])),
    ];
    let mut alive = NOW;
    let mut told = Vec::new();
    for message in mixed {
        let plan = server::tunnel::process_message_at(message, NOW, &mut alive, &map);
        if let Some((1, news)) = plan.deliver {
            told.push(format!("{:?}", news));
        }
        server::tunnel::settle(plan.forget, true, &mut map);
    }
    assert_eq!(told, vec!["Data([1])", "Close"]);
}

#[test]
fn messages_of_the_client_come_between() {
    let config = Config::new(vec![], String::new(), String::new(), 1);
    let (mut tunnel, _) = client::tunnel::TcpTunnel::new(&config, 0);
    let (entry, open) = tunnel.open_entry(0u8);
    let from_server = |frame| client::tunnel::Message::SC(frame);
    let mixed = vec![
        open,
        entry.connect_domain_name(vec![65], 80),
        from_server(ScFrame::ConnectOk(1, vec![9])),
        entry.write(vec![8]),
        from_server(ScFrame::Data(1, vec![1])),
        client::tunnel::Message::CS(client::tunnel::Cs::Heartbeat),
        from_server(ScFrame::Eof(1)),
        from_server(ScFrame::EntryClose(1)),
        entry.close(),
        from_server(ScFrame::Data(1, vec![2])),
    ];
    let mut map: client::tunnel::EntryMap<u8> = client::tunnel::EntryMap::new();
    let mut alive = NOW;
    let mut told = Vec::new();
    for message in mixed {
        let plan = client::tunnel::process_message_at(message, NOW, &mut alive, &mut map);
        if let Some((1, news)) = plan.deliver {
            told.push(format!("{:?}", news));
        }
        client::tunnel::settle(plan.forget, true, &mut map);
    }
    assert_eq!(told, vec!["ConnectOk([9])", "Data([1])", "Eof", "Close"]);
}
