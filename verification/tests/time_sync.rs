use home_exporter::time::ntp::NTP_UNIX_OFFSET;
use home_exporter::time::Time;

fn response_at_unix(unix: u64) -> Vec<u8> {
    let mut bytes = vec![0u8; 48];
    bytes[0] = 0x24;
    bytes[40..48].copy_from_slice(&((unix + NTP_UNIX_OFFSET) << 32).to_be_bytes());
    bytes
}

#[test]
fn new_clock_counts_from_zero() {
    let t = Time::new();
    assert_eq!(t.base_timestamp, 0);
    assert_eq!(t.seconds_since_boot, 0);
    assert_eq!(t.now_at(0), Some(0));
    assert_eq!(t.now_at(42), Some(42));
}

#[test]
fn time_counts_from_sync() {
    let mut t = Time::new();
    assert_eq!(t.apply_ntp_response(&response_at_unix(1_700_000_000), 100), Ok(()));
    assert_eq!(t.base_timestamp, 1_700_000_000);
    assert_eq!(t.seconds_since_boot, 100);
    assert_eq!(t.now_at(100), Some(1_700_000_000));
    assert_eq!(t.now_at(160), Some(1_700_000_060));
}

#[test]
fn time_before_sync_point_is_none() {
    let mut t = Time::new();
    t.apply_ntp_response(&response_at_unix(1_700_000_000), 100).unwrap();
    assert_eq!(t.now_at(99), None);
}

#[test]
fn time_overflow_is_none() {
    let t = Time { base_timestamp: u64::MAX - 5, seconds_since_boot: 10 };
    assert_eq!(t.now_at(15), Some(u64::MAX));
    assert_eq!(t.now_at(16), None);
}

#[test]
fn short_response_leaves_clock_unchanged() {
    let mut t = Time::new();
    t.apply_ntp_response(&response_at_unix(1_000), 7).unwrap();
    let before = t;
    assert_eq!(t.apply_ntp_response(&[0u8; 20], 50), Err("Buffer too short"));
    assert_eq!(t, before);
}

#[test]
fn later_sync_replaces_earlier() {
    let mut t = Time::new();
    t.apply_ntp_response(&response_at_unix(1_000), 7).unwrap();
    t.apply_ntp_response(&response_at_unix(5_000), 20).unwrap();
    assert_eq!(t.now_at(25), Some(5_005));
}

#[test]
fn sync_from_response_reads_the_clock() {
    let mut t = Time::new();
    assert_eq!(t.sync_from_response(&response_at_unix(1_700_000_000)), Ok(()));
    assert_eq!(t.base_timestamp, 1_700_000_000);
    let now = t.now().unwrap();
    assert!(now >= 1_700_000_000);
    assert!(now < 1_700_000_000 + 3600);
}

#[test]
fn sync_from_short_response_fails() {
    let mut t = Time::new();
    assert_eq!(t.sync_from_response(&[1, 2, 3]), Err("Buffer too short"));
    assert_eq!(t, Time::new());
}
