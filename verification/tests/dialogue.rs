use bit_tunnel::address::{SocketAddr, SocketAddrV4, SocketAddrV6};
use bit_tunnel::client::socks5::{
    read_dest, write_dest_connected, write_dest_result, write_dest_unreached, write_method,
    Destination, Dialogue,
};
use bit_tunnel::port;

// Holds the dialogue with a program that sends `input`.
fn negotiate(input: &[u8]) -> (Dialogue, Vec<u8>, usize) {
    let mut dialogue = Dialogue::Start;
    let mut replies = Vec::new();
    let mut at = 0;
    while let Some(n) = dialogue.want() {
        if at + n > input.len() {
            break;
        }
        let (next, reply) = read_dest(dialogue, input[at..at + n].to_vec());
        replies.extend(reply);
        dialogue = next;
        at += n;
    }
    (dialogue, replies, at)
}

#[test]
fn an_ipv4_request_is_read() {
    let (end, replies, at) = negotiate(&[5, 1, 0, 5, 1, 0, 1, 1, 0, 0, 10, 0x1F, 0x90, 77]);
    match end {
        Dialogue::Done(Destination::Ip4 { address }) => {
            assert_eq!(address, SocketAddrV4 { ip: [10, 0, 0, 1], port: 8080 });
        }
        other => panic!("{:?}", other),
    }
    assert_eq!(replies, vec![5, 0]);
    assert_eq!(at, 13);
}

#[test]
fn a_domain_name_request_is_read() {
    let mut input = vec![5, 2, 2, 0, 5, 1, 0, 3, 11];
    input.extend(b"example.org");
    input.extend([1, 187]);
    let (end, replies, _) = negotiate(&input);
    match end {
        Dialogue::Done(Destination::DomainName { name, port }) => {
            assert_eq!(name, b"example.org".to_vec());
            assert_eq!(port, 443);
        }
        other => panic!("{:?}", other),
    }
    assert_eq!(replies, vec![5, 0]);
}

#[test]
fn an_empty_name_is_a_name() {
    let (end, _, _) = negotiate(&[5, 1, 0, 5, 1, 0, 3, 0, 0, 80]);
    match end {
        Dialogue::Done(Destination::DomainName { name, port: 80 }) => assert!(name.is_empty()),
        other => panic!("{:?}", other),
    }
}

#[test]
fn another_version_is_refused() {
    let (end, replies, at) = negotiate(&[4, 1, 0, 5]);
    assert!(matches!(end, Dialogue::Done(Destination::Unknown)));
    assert_eq!(replies, vec![5, 0xFF]);
    assert_eq!(at, 2);
}

#[test]
fn a_program_that_wants_authentication_is_refused() {
    let (end, replies, _) = negotiate(&[5, 2, 1, 2]);
    assert!(matches!(end, Dialogue::Done(Destination::Unknown)));
    assert_eq!(replies, vec![5, 0xFF]);
    let (end, replies, _) = negotiate(&[5, 0]);
    assert!(matches!(end, Dialogue::Done(Destination::Unknown)));
    assert_eq!(replies, vec![5, 0xFF]);
}

#[test]
fn other_requests_have_no_destination() {
    for request in [[5, 2, 0, 1], [5, 1, 0, 4], [5, 1, 0, 9]] {
        let mut input = vec![5, 1, 0];
        input.extend(request);
        let (end, replies, at) = negotiate(&input);
        assert!(matches!(end, Dialogue::Done(Destination::Unknown)));
        assert_eq!(replies, vec![5, 0]);
        assert_eq!(at, 7);
    }
}

#[test]
fn an_early_end_leaves_the_dialogue_open() {
    let (end, replies, _) = negotiate(&[5, 1, 0, 5, 1, 0, 1, 1, 2]);
    assert!(matches!(end, Dialogue::Ip4));
    assert_eq!(replies, vec![5, 0]);
}

#[test]
fn the_program_is_answered() {
    assert_eq!(write_method(0), vec![5, 0]);
    assert_eq!(write_dest_unreached(), vec![5, 1, 0, 1, 0, 0, 0, 0, 0, 0]);
    let v4 = SocketAddr::V4(SocketAddrV4 { ip: [10, 0, 0, 1], port: 8080 });
    assert_eq!(write_dest_connected(v4), vec![5, 0, 0, 1, 10, 0, 0, 1, 0x1F, 0x90]);
    assert_eq!(write_dest_result(v4, 1), vec![5, 1, 0, 1, 10, 0, 0, 1, 0x1F, 0x90]);
    let mut ip = [0u8; 16];
    ip[15] = 1;
    let mut expected = vec![5, 0, 0, 4];
    expected.extend(ip);
    expected.extend([0, 80]);
    assert_eq!(write_dest_connected(SocketAddr::V6(SocketAddrV6 { ip, port: 80 })), expected);
}

#[test]
fn addresses_have_a_text() {
    let text = |ip, port| String::from_utf8(SocketAddrV4 { ip, port }.to_text()).unwrap();
    assert_eq!(text([10, 0, 0, 1], 80), "10.0.0.1:80");
    assert_eq!(text([255, 255, 255, 255], 65535), "255.255.255.255:65535");
    assert_eq!(text([0, 9, 100, 10], 0), "0.9.100.10:0");
}

#[test]
fn a_port_reads_the_same_destinations() {
    let (next, reply) = port::read_destination(Dialogue::Start, vec![5, 1]);
    assert!(reply.is_empty());
    assert!(matches!(next, port::Negotiation::Open(Dialogue::Methods(1))));
    let (next, reply) = port::read_destination(Dialogue::Methods(1), vec![0]);
    assert_eq!(reply, vec![5, 0]);
    assert!(matches!(next, port::Negotiation::Open(Dialogue::Request)));
    let (next, _) = port::read_destination(Dialogue::Ip4, vec![1, 0, 0, 10, 0, 80]);
    match next {
        port::Negotiation::Done(port::Destination::Address { address }) => {
            assert_eq!(address, SocketAddrV4 { ip: [10, 0, 0, 1], port: 80 });
        }
        other => panic!("{:?}", other),
    }
    let (next, _) = port::read_destination(Dialogue::Name(1), vec![65, 0, 80]);
    match next {
        port::Negotiation::Done(port::Destination::DomainName { name, port: 80 }) => {
            assert_eq!(name, vec![65]);
        }
        other => panic!("{:?}", other),
    }
    let (next, reply) = port::read_destination(Dialogue::Start, vec![4, 1]);
    assert_eq!(reply, vec![5, 0xFF]);
    assert!(matches!(next, port::Negotiation::Done(port::Destination::Unknown)));
}
