use home_exporter::time::ntp::{Packet, NTP_UNIX_OFFSET};

fn transmit_response(transmit: u64) -> Vec<u8> {
    let mut bytes = vec![0u8; 48];
    bytes[0] = 0x24;
    bytes[40..48].copy_from_slice(&transmit.to_be_bytes());
    bytes
}

#[test]
fn default_packet_is_client_request() {
    let p = Packet::default();
    assert_eq!(p.li_vn_mode, 0x1b);
    assert_eq!(p.stratum, 0);
    assert_eq!(p.transmit_timestamp, 0);
}

#[test]
fn to_bytes_sends_only_mode_byte() {
    let bytes = Packet::default().to_bytes();
    assert_eq!(bytes.len(), 48);
    assert_eq!(bytes[0], 0x1b);
    assert!(bytes[1..].iter().all(|b| *b == 0));
}

#[test]
fn to_bytes_of_decoded_packet_keeps_only_mode() {
    let mut raw = vec![0xABu8; 48];
    raw[0] = 0x24;
    let p = Packet::from_bytes(&raw).unwrap();
    let bytes = p.to_bytes();
    assert_eq!(bytes[0], 0x24);
    assert!(bytes[1..].iter().all(|b| *b == 0));
}

#[test]
fn from_bytes_rejects_short_buffer() {
    assert_eq!(Packet::from_bytes(&[0u8; 47]), Err("Buffer too short"));
    assert_eq!(Packet::from_bytes(&[]), Err("Buffer too short"));
}

#[test]
fn from_bytes_reads_big_endian_fields() {
    let raw: Vec<u8> = (0u8..48).collect();
    let p = Packet::from_bytes(&raw).unwrap();
    assert_eq!(p.li_vn_mode, 0);
    assert_eq!(p.stratum, 1);
    assert_eq!(p.poll, 2);
    assert_eq!(p.precision, 3);
    assert_eq!(p.root_delay, 0x04050607);
    assert_eq!(p.root_dispersion, 0x08090a0b);
    assert_eq!(p.ref_id, 0x0c0d0e0f);
    assert_eq!(p.ref_timestamp, 0x1011121314151617);
    assert_eq!(p.orig_timestamp, 0x18191a1b1c1d1e1f);
    assert_eq!(p.recv_timestamp, 0x2021222324252627);
    assert_eq!(p.transmit_timestamp, 0x28292a2b2c2d2e2f);
}

#[test]
fn from_bytes_ignores_bytes_after_the_header() {
    let mut raw = transmit_response(0x0102030405060708);
    raw.extend_from_slice(&[0xFF; 16]);
    let p = Packet::from_bytes(&raw).unwrap();
    assert_eq!(p.transmit_timestamp, 0x0102030405060708);
    assert_eq!(p.li_vn_mode, 0x24);
}

#[test]
fn from_bytes_of_request_is_default() {
    let bytes = Packet::default().to_bytes();
    assert_eq!(Packet::from_bytes(&bytes), Ok(Packet::default()));
}

#[test]
fn unix_time_subtracts_epoch_offset() {
    let seconds: u64 = NTP_UNIX_OFFSET + 1_700_000_000;
    let p = Packet::from_bytes(&transmit_response((seconds << 32) | 0xFFFF_FFFF)).unwrap();
    assert_eq!(p.get_unix_time(), 1_700_000_000);
}

#[test]
fn unix_time_at_epoch_is_zero() {
    let p = Packet::from_bytes(&transmit_response(NTP_UNIX_OFFSET << 32)).unwrap();
    assert_eq!(p.get_unix_time(), 0);
}

#[test]
fn unix_time_before_epoch_saturates_to_zero() {
    let p = Packet::from_bytes(&transmit_response(1u64 << 32)).unwrap();
    assert_eq!(p.get_unix_time(), 0);
    assert_eq!(Packet::default().get_unix_time(), 0);
}
