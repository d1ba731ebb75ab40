use bit_tunnel::client::stream::{server_stream_to_tunnel, ScOutput, ScReader};
use bit_tunnel::client::tunnel::opening;
use bit_tunnel::protocol::{CsCodes, CsFrame, Protocol, ScCodes, ScFrame, TunnelError, Want};
use bit_tunnel::server::stream::{client_stream_to_tunnel, CsOutput, CsReader};

fn protocol() -> Protocol {
    Protocol {
        cs: CsCodes {
            heartbeat: 7,
            entry_open: 1,
            entry_close: 2,
            eof: 3,
            connect_domain_name: 5,
            connect_ip4: 4,
            data: 6,
        },
        sc: ScCodes { heartbeat: 5, entry_close: 1, eof: 2, connect_ok: 3, data: 4 },
        verify_data: vec![0xAA, 0xBB],
        ctr_size: 3,
    }
}

// Stands for a cipher.
fn flip(data: &[u8]) -> Vec<u8> {
    data.iter().map(|b| b ^ 0x55).collect()
}

// Reads the stream of a client to its end.
fn read_client(stream: &[u8]) -> (Vec<String>, Result<CsReader, TunnelError>) {
    let protocol = protocol();
    let mut heard = Vec::new();
    let mut reader = CsReader::Counter;
    let mut at = 0;
    loop {
        let reply = match reader.want(&protocol) {
            Want::Read(n) if at + n <= stream.len() => {
                at += n;
                stream[at - n..at].to_vec()
            }
            Want::Decrypt(data) => flip(data),
            _ => return (heard, Ok(reader)),
        };
        if reader.is_short_name() {
            return (heard, Ok(reader));
        }
        match client_stream_to_tunnel(&protocol, reader, reply) {
            Ok((next, output)) => {
                match output {
                    CsOutput::Nothing => {}
                    output => heard.push(format!("{:?}", output)),
                }
                reader = next;
            }
            Err(error) => return (heard, Err(error)),
        }
    }
}

// Reads the stream of a server to its end.
fn read_server(stream: &[u8]) -> (Vec<String>, ScReader) {
    let protocol = protocol();
    let mut heard = Vec::new();
    let mut reader = ScReader::Counter;
    let mut at = 0;
    loop {
        let reply = match reader.want(&protocol) {
            Want::Read(n) if at + n <= stream.len() => {
                at += n;
                stream[at - n..at].to_vec()
            }
            Want::Decrypt(data) => flip(data),
            _ => return (heard, reader),
        };
        let (next, output) = server_stream_to_tunnel(&protocol, reader, reply);
        match output {
            ScOutput::Nothing => {}
            output => heard.push(format!("{:?}", output)),
        }
        reader = next;
    }
}

fn cs_stream(frames: &[CsFrame]) -> Vec<u8> {
    let protocol = protocol();
    let mut stream = opening(&[1, 2, 3], &flip(&protocol.verify_data));
    for frame in frames {
        let sealed = match frame.payload() {
            Some(data) => frame.clone().with_payload(flip(data)),
            None => frame.clone(),
        };
        stream.extend(sealed.pack(&protocol.cs));
    }
    stream
}

#[test]
fn messages_of_the_client_arrive() {
    let frames = vec![
        CsFrame::EntryOpen(1),
        CsFrame::ConnectIp4(1, b"10.0.0.1:80".to_vec()),
        CsFrame::Heartbeat,
        CsFrame::EntryOpen(2),
        CsFrame::ConnectDomainName(2, b"example.org".to_vec(), 443),
        CsFrame::Data(1, vec![1, 2, 3]),
        CsFrame::Data(2, vec![]),
        CsFrame::Eof(1),
        CsFrame::EntryClose(u32::MAX),
    ];
    let (heard, end) = read_client(&cs_stream(&frames));
    let mut expected = vec![format!("{:?}", CsOutput::Counter(vec![1, 2, 3]))];
    for frame in frames {
        expected.push(format!("{:?}", CsOutput::Message(frame)));
    }
    assert_eq!(heard, expected);
    assert!(matches!(end, Ok(CsReader::Op)));
}

#[test]
fn messages_of_the_server_arrive() {
    let protocol = protocol();
    let frames = vec![
        ScFrame::ConnectOk(1, b"10.0.0.2:5000".to_vec()),
        ScFrame::Heartbeat,
        ScFrame::Data(1, vec![0, 255]),
        ScFrame::Eof(1),
        ScFrame::EntryClose(2),
    ];
    let mut stream = vec![9, 8, 7];
    for frame in &frames {
        let sealed = match frame.payload() {
            Some(data) => frame.clone().with_payload(flip(data)),
            None => frame.clone(),
        };
        stream.extend(sealed.pack(&protocol.sc));
    }
    let (heard, end) = read_server(&stream);
    let mut expected = vec![format!("{:?}", ScOutput::Counter(vec![9, 8, 7]))];
    for frame in frames {
        expected.push(format!("{:?}", ScOutput::Message(frame)));
    }
    assert_eq!(heard, expected);
    assert!(matches!(end, ScReader::Op));
}

#[test]
fn a_client_without_the_key_is_not_heard() {
    let mut stream = opening(&[1, 2, 3], &[0, 0]);
    stream.push(7);
    let (heard, end) = read_client(&stream);
    assert_eq!(heard, vec![format!("{:?}", CsOutput::Counter(vec![1, 2, 3]))]);
    assert!(matches!(end, Err(TunnelError::InvalidInput)));
}

#[test]
fn the_opening_is_counter_and_greeting() {
    assert_eq!(opening(&[1, 2, 3], &[4, 5]), vec![1, 2, 3, 4, 5]);
}

#[test]
fn an_unknown_operation_of_the_client_is_data() {
    let mut stream = cs_stream(&[]);
    stream.extend([99, 0, 0, 0, 3, 0, 0, 0, 1, 0x55]);
    let (heard, _) = read_client(&stream);
    assert_eq!(heard[1], format!("{:?}", CsOutput::Message(CsFrame::Data(3, vec![0]))));
}

#[test]
fn an_unknown_operation_of_the_server_ends_the_stream() {
    let (heard, end) = read_server(&[1, 2, 3, 99, 0, 0, 0, 3, 5]);
    assert_eq!(heard.len(), 1);
    assert!(matches!(end, ScReader::Finished));
}

#[test]
fn a_broken_frame_brings_nothing() {
    let mut stream = cs_stream(&[]);
    stream.extend([6, 0, 0, 0, 3, 0, 0, 0, 2, 1]);
    let (heard, end) = read_client(&stream);
    assert_eq!(heard.len(), 1);
    assert!(matches!(end, Ok(CsReader::Body(_, 3, 2))));
}

#[test]
fn a_name_without_a_port_is_seen() {
    let mut stream = cs_stream(&[]);
    stream.extend([5, 0, 0, 0, 3, 0, 0, 0, 1, 1]);
    let (_, end) = read_client(&stream);
    match end {
        Ok(reader) => assert!(reader.is_short_name()),
        Err(_) => unreachable!(),
    }
    assert!(!CsReader::Op.is_short_name());
}

#[test]
fn an_empty_name_has_a_port() {
    let (heard, _) = read_client(&cs_stream(&[CsFrame::ConnectDomainName(3, vec![], 80)]));
    assert_eq!(
        heard[1],
        format!("{:?}", CsOutput::Message(CsFrame::ConnectDomainName(3, vec![], 80)))
    );
}
