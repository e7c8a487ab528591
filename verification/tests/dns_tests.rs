use fullrust::dns::{build_query, parse_answers, skip_name, QTYPE_A, QTYPE_AAAA};
use fullrust::io_error::ErrorKind;
use fullrust::net_addr::{IpAddr, Ipv4Addr, Ipv6Addr};

#[test]
fn query_packet_layout() {
    let pkt = build_query([0x12, 0x34], "www.example.com", QTYPE_A);
    let mut want: Vec<u8> = vec![0x12, 0x34, 1, 0, 0, 1, 0, 0, 0, 0, 0, 0];
    want.push(3);
    want.extend_from_slice(b"www");
    want.push(7);
    want.extend_from_slice(b"example");
    want.push(3);
    want.extend_from_slice(b"com");
    want.extend_from_slice(&[0, 0, 1, 0, 1]);
    assert_eq!(pkt, want);
}

#[test]
fn query_skips_empty_labels() {
    let pkt = build_query([0, 0], "a..b.", QTYPE_AAAA);
    let want: Vec<u8> = vec![0, 0, 1, 0, 0, 1, 0, 0, 0, 0, 0, 0, 1, b'a', 1, b'b', 0, 0, 28, 0, 1];
    assert_eq!(pkt, want);
}

#[test]
fn skip_name_forms() {
    let msg = [3u8, b'w', b'w', b'w', 0, 0xc0, 0x0c, 9];
    assert_eq!(skip_name(&msg, 0), Some(5));
    assert_eq!(skip_name(&msg, 5), Some(7));
    assert_eq!(skip_name(&msg, 7), None);
    assert_eq!(skip_name(&msg, 8), None);
}

fn response(answers: &[(u16, &[u8])]) -> Vec<u8> {
    let mut m: Vec<u8> = vec![0xab, 0xcd, 0x81, 0x80, 0, 1, 0, answers.len() as u8, 0, 0, 0, 0];
    m.extend_from_slice(&[4, b'h', b'o', b's', b't', 0, 0, 1, 0, 1]);
    for (ty, data) in answers {
        m.extend_from_slice(&[0xc0, 0x0c]);
        m.extend_from_slice(&ty.to_be_bytes());
        m.extend_from_slice(&[0, 1, 0, 0, 0, 60]);
        m.extend_from_slice(&(data.len() as u16).to_be_bytes());
        m.extend_from_slice(data);
    }
    m
}

#[test]
fn answers_of_the_asked_type() {
    let msg = response(&[(1, &[93, 184, 216, 34]), (5, &[1, 2]), (1, &[10, 0, 0, 1])]);
    let got = parse_answers(&msg, QTYPE_A).ok().unwrap();
    assert_eq!(
        got,
        vec![IpAddr::V4(Ipv4Addr::new(93, 184, 216, 34)), IpAddr::V4(Ipv4Addr::new(10, 0, 0, 1))]
    );
    let none = parse_answers(&msg, QTYPE_AAAA).ok().unwrap();
    assert!(none.is_empty());
}

#[test]
fn aaaa_answer() {
    let o = [0x20u8, 1, 0x0d, 0xb8, 0, 0, 0, 0, 0, 0, 0, 0, 0, 0, 0, 1];
    let msg = response(&[(28, &o)]);
    let got = parse_answers(&msg, QTYPE_AAAA).ok().unwrap();
    assert_eq!(got, vec![IpAddr::V6(Ipv6Addr::from_octets(o))]);
}

#[test]
fn malformed_responses_are_invalid_data() {
    let short = [0u8; 11];
    assert_eq!(parse_answers(&short, QTYPE_A).err().unwrap().kind(), ErrorKind::InvalidData);
    let mut msg = response(&[(1, &[1, 2, 3, 4])]);
    msg.truncate(msg.len() - 2);
    assert_eq!(parse_answers(&msg, QTYPE_A).err().unwrap().kind(), ErrorKind::InvalidData);
    let mut bad_name = vec![0u8, 0, 0, 0, 0, 1, 0, 0, 0, 0, 0, 0];
    bad_name.push(9);
    assert_eq!(parse_answers(&bad_name, QTYPE_A).err().unwrap().kind(), ErrorKind::InvalidData);
}
