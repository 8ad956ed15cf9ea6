use home_exporter::networking::bluetooth::scan_result_from_report;

#[test]
fn report_becomes_scan_result() {
    let data = [0x02, 0x01, 0x06, 0x03, 0xFF, 0x69, 0x09];
    let r = scan_result_from_report([1, 2, 3, 4, 5, 6], -42, &data).unwrap();
    assert_eq!(r.addr, [1, 2, 3, 4, 5, 6]);
    assert_eq!(r.rssi, -42);
    assert_eq!(r.data(), &data[..]);
}

#[test]
fn full_payload_is_kept() {
    let data = [0xA5u8; 31];
    let r = scan_result_from_report([0; 6], 0, &data).unwrap();
    assert_eq!(r.data(), &data[..]);
}

#[test]
fn empty_payload_is_kept() {
    let r = scan_result_from_report([0; 6], 0, &[]).unwrap();
    assert!(r.data().is_empty());
}

#[test]
fn oversized_payload_is_dropped() {
    assert!(scan_result_from_report([0; 6], 0, &[0u8; 32]).is_none());
    assert!(scan_result_from_report([0; 6], 0, &[0u8; 255]).is_none());
}
