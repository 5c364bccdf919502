use jackline::cli::Versions;
use jackline::endpoint::{Endpoint, IpAddress};
use jackline::stun::{
    choose_server, public_endpoint, StunAttribute, StunError, StunMessage, BINDING_REQUEST,
};

const TID: [u8; 12] = [1, 2, 3, 4, 5, 6, 7, 8, 9, 10, 11, 12];

fn response(attrs: &[u8]) -> Vec<u8> {
    let mut b = vec![0x01, 0x01];
    b.extend_from_slice(&(attrs.len() as u16).to_be_bytes());
    b.extend_from_slice(&[0x21, 0x12, 0xA4, 0x42]);
    b.extend_from_slice(&TID);
    b.extend_from_slice(attrs);
    b
}

#[test]
fn binding_request_bytes() {
    let m = StunMessage { message_type: BINDING_REQUEST, transaction_id: TID, attributes: vec![] };
    let mut expected = vec![0x00, 0x01, 0x00, 0x00, 0x21, 0x12, 0xA4, 0x42];
    expected.extend_from_slice(&TID);
    assert_eq!(m.to_bytes(), expected);
}

#[test]
fn new_request_is_a_binding_request() {
    let a = StunMessage::new();
    let b = StunMessage::new();
    assert_eq!(a.message_type, BINDING_REQUEST);
    assert!(a.attributes.is_empty());
    assert_eq!(a.to_bytes().len(), 20);
    assert_ne!(a.transaction_id, b.transaction_id);
}

#[test]
fn xor_mapped_ipv4() {
    let port: u16 = 32853;
    let ip: u32 = 0xC000_0201;
    let mut attr = vec![0x00, 0x20, 0x00, 0x08, 0x00, 0x01];
    attr.extend_from_slice(&(port ^ 0x2112).to_be_bytes());
    attr.extend_from_slice(&(ip ^ 0x2112_A442).to_be_bytes());
    let m = StunMessage::from_bytes(&response(&attr)).unwrap();
    assert_eq!(m.message_type, 0x0101);
    assert_eq!(m.transaction_id, TID);
    assert_eq!(m.attributes.len(), 1);
    match &m.attributes[0] {
        StunAttribute::XorMappedAddress(e) => {
            assert_eq!(*e, Endpoint::new(IpAddress::V4(ip), port));
        }
        other => panic!("unexpected attribute {:?}", other),
    }
    let request = StunMessage { message_type: BINDING_REQUEST, transaction_id: TID, attributes: vec![] };
    assert_eq!(public_endpoint(&request, &m), Some(Endpoint::new(IpAddress::V4(ip), port)));
    let other = StunMessage { message_type: BINDING_REQUEST, transaction_id: [0; 12], attributes: vec![] };
    assert_eq!(public_endpoint(&other, &m), None);
}

#[test]
fn xor_mapped_ipv6() {
    let ip: u128 = 0x2001_0db8_0000_0000_0000_0000_0000_0001;
    let port: u16 = 443;
    let mut key = vec![0x21, 0x12, 0xA4, 0x42];
    key.extend_from_slice(&TID);
    let mut attr = vec![0x00, 0x20, 0x00, 0x14, 0x00, 0x02];
    attr.extend_from_slice(&(port ^ 0x2112).to_be_bytes());
    for (b, k) in ip.to_be_bytes().iter().zip(key.iter()) {
        attr.push(b ^ k);
    }
    let m = StunMessage::from_bytes(&response(&attr)).unwrap();
    match &m.attributes[0] {
        StunAttribute::XorMappedAddress(e) => {
            assert_eq!(*e, Endpoint::new(IpAddress::V6(ip), port));
        }
        other => panic!("unexpected attribute {:?}", other),
    }
}

#[test]
fn unknown_attributes_are_kept() {
    let attr = vec![0x80, 0x22, 0x00, 0x03, b'a', b'b', b'c'];
    let m = StunMessage::from_bytes(&response(&attr)).unwrap();
    match &m.attributes[0] {
        StunAttribute::Unknown(t, v) => {
            assert_eq!(*t, 0x8022);
            assert_eq!(v, &b"abc".to_vec());
        }
        other => panic!("unexpected attribute {:?}", other),
    }
    let request = StunMessage { message_type: BINDING_REQUEST, transaction_id: TID, attributes: vec![] };
    assert_eq!(public_endpoint(&request, &m), None);
}

#[test]
fn stun_parse_errors() {
    assert_eq!(StunMessage::from_bytes(&[0; 19]).unwrap_err(), StunError::TooShort);
    let mut bad = response(&[]);
    bad[4] = 0;
    assert_eq!(StunMessage::from_bytes(&bad).unwrap_err(), StunError::BadMagicCookie);
    let mut long = response(&[]);
    long[3] = 8;
    assert_eq!(StunMessage::from_bytes(&long).unwrap_err(), StunError::TooShort);
    assert_eq!(
        StunMessage::from_bytes(&response(&[0x00, 0x20, 0x00, 0x08, 0x00])).unwrap_err(),
        StunError::TruncatedAttribute
    );
    assert_eq!(
        StunMessage::from_bytes(&response(&[0x00, 0x20, 0x00, 0x04, 0x00, 0x03, 0, 0])).unwrap_err(),
        StunError::UnknownAddressFamily
    );
    assert_eq!(
        StunMessage::from_bytes(&response(&[0x00, 0x20, 0x00, 0x04, 0x00, 0x01, 0, 0])).unwrap_err(),
        StunError::TruncatedAttribute
    );
    assert!(StunMessage::from_bytes(&response(&[])).unwrap().attributes.is_empty());
}

#[test]
fn server_choice_prefers_version() {
    let v4 = Endpoint::new(IpAddress::V4(0x0808_0808), 19302);
    let v6 = Endpoint::new(IpAddress::V6(1), 19302);
    assert_eq!(choose_server(&vec![v4, v6], Versions::V6), Some(v6));
    assert_eq!(choose_server(&vec![v4, v6], Versions::V4), Some(v4));
    assert_eq!(choose_server(&vec![v4], Versions::V6), Some(v4));
    assert_eq!(choose_server(&vec![], Versions::V4), None);
}
