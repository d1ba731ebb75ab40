use bit_tunnel::bytes::{has_byte, push_be16, push_be32, push_bytes, read_be16, read_be32, same_bytes};
use bit_tunnel::protocol::{
    pack_cs_connect_domain_name, pack_cs_connect_ip4, pack_cs_data, pack_cs_entry_close,
    pack_cs_entry_open, pack_cs_eof, pack_cs_heartbeat, pack_sc_connect_ok, pack_sc_data,
    pack_sc_entry_close, pack_sc_eof, pack_sc_heartbeat, CsCodes, CsFrame, ScCodes, ScFrame,
};

fn cs() -> CsCodes {
    CsCodes {
        heartbeat: 7,
        entry_open: 1,
        entry_close: 2,
        eof: 3,
        connect_domain_name: 5,
        connect_ip4: 4,
        data: 6,
    }
}

fn sc() -> ScCodes {
    ScCodes { heartbeat: 5, entry_close: 1, eof: 2, connect_ok: 3, data: 4 }
}

#[test]
fn integers_are_big_endian() {
    let mut out: Vec<u8> = vec![9];
    push_be16(&mut out, 0x1234);
    push_be32(&mut out, 0xdeadbeef);
    push_bytes(&mut out, &[1, 2]);
    assert_eq!(out, vec![9, 0x12, 0x34, 0xde, 0xad, 0xbe, 0xef, 1, 2]);
}

#[test]
fn integers_are_read_back() {
    for v in [0u32, 1, 255, 256, 65535, 65536, 0x0102_0304, u32::MAX] {
        let mut out = Vec::new();
        push_be32(&mut out, v);
        assert_eq!(read_be32(&out), v);
    }
    for v in [0u16, 1, 80, 443, 255, 256, u16::MAX] {
        let mut out = Vec::new();
        push_be16(&mut out, v);
        assert_eq!(read_be16(out[0], out[1]), v);
    }
}

#[test]
fn bytes_are_compared_and_searched() {
    assert!(same_bytes(&[1, 2], &[1, 2]));
    assert!(!same_bytes(&[1, 2], &[1, 3]));
    assert!(!same_bytes(&[1, 2], &[1, 2, 3]));
    assert!(same_bytes(&[], &[]));
    assert!(has_byte(&[3, 0, 1], 0));
    assert!(!has_byte(&[3, 1], 0));
    assert!(!has_byte(&[], 0));
}

#[test]
fn client_frames_on_the_wire() {
    let codes = cs();
    assert_eq!(pack_cs_heartbeat(&codes), vec![7]);
    assert_eq!(pack_cs_entry_open(&codes, 1), vec![1, 0, 0, 0, 1]);
    assert_eq!(pack_cs_entry_close(&codes, 256), vec![2, 0, 0, 1, 0]);
    assert_eq!(pack_cs_eof(&codes, u32::MAX), vec![3, 255, 255, 255, 255]);
    assert_eq!(pack_cs_connect_ip4(&codes, 2, &[8, 9]), vec![4, 0, 0, 0, 2, 0, 0, 0, 2, 8, 9]);
    assert_eq!(
        pack_cs_connect_domain_name(&codes, 2, &[8, 9], 443),
        vec![5, 0, 0, 0, 2, 0, 0, 0, 4, 8, 9, 1, 187]
    );
    assert_eq!(pack_cs_data(&codes, 2, &[]), vec![6, 0, 0, 0, 2, 0, 0, 0, 0]);
}

#[test]
fn server_frames_on_the_wire() {
    let codes = sc();
    assert_eq!(pack_sc_heartbeat(&codes), vec![5]);
    assert_eq!(pack_sc_entry_close(&codes, 1), vec![1, 0, 0, 0, 1]);
    assert_eq!(pack_sc_eof(&codes, 1), vec![2, 0, 0, 0, 1]);
    assert_eq!(pack_sc_connect_ok(&codes, 3, &[1]), vec![3, 0, 0, 0, 3, 0, 0, 0, 1, 1]);
    assert_eq!(pack_sc_data(&codes, 3, &[1, 2]), vec![4, 0, 0, 0, 3, 0, 0, 0, 2, 1, 2]);
}

#[test]
fn frames_pack_like_their_operations() {
    let codes = cs();
    assert_eq!(CsFrame::Heartbeat.pack(&codes), pack_cs_heartbeat(&codes));
    assert_eq!(CsFrame::EntryOpen(7).pack(&codes), pack_cs_entry_open(&codes, 7));
    assert_eq!(CsFrame::EntryClose(7).pack(&codes), pack_cs_entry_close(&codes, 7));
    assert_eq!(CsFrame::Eof(7).pack(&codes), pack_cs_eof(&codes, 7));
    assert_eq!(CsFrame::ConnectIp4(7, vec![1]).pack(&codes), pack_cs_connect_ip4(&codes, 7, &[1]));
    assert_eq!(
        CsFrame::ConnectDomainName(7, vec![1], 80).pack(&codes),
        pack_cs_connect_domain_name(&codes, 7, &[1], 80)
    );
    assert_eq!(CsFrame::Data(7, vec![1]).pack(&codes), pack_cs_data(&codes, 7, &[1]));
    let codes = sc();
    assert_eq!(ScFrame::Heartbeat.pack(&codes), pack_sc_heartbeat(&codes));
    assert_eq!(ScFrame::EntryClose(7).pack(&codes), pack_sc_entry_close(&codes, 7));
    assert_eq!(ScFrame::Eof(7).pack(&codes), pack_sc_eof(&codes, 7));
    assert_eq!(ScFrame::ConnectOk(7, vec![1]).pack(&codes), pack_sc_connect_ok(&codes, 7, &[1]));
    assert_eq!(ScFrame::Data(7, vec![1]).pack(&codes), pack_sc_data(&codes, 7, &[1]));
}

#[test]
fn only_payloads_are_replaced() {
    assert_eq!(CsFrame::Eof(1).payload(), None);
    assert_eq!(CsFrame::Data(1, vec![5]).payload(), Some(&vec![5]));
    assert!(matches!(CsFrame::Eof(1).with_payload(vec![9]), CsFrame::Eof(1)));
    match CsFrame::ConnectDomainName(1, vec![5], 80).with_payload(vec![9]) {
        CsFrame::ConnectDomainName(1, name, 80) => assert_eq!(name, vec![9]),
        other => panic!("{:?}", other),
    }
    assert_eq!(ScFrame::Heartbeat.payload(), None);
    match ScFrame::ConnectOk(1, vec![5]).with_payload(vec![9]) {
        ScFrame::ConnectOk(1, data) => assert_eq!(data, vec![9]),
        other => panic!("{:?}", other),
    }
}
