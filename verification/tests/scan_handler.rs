use home_exporter::importer::sbmeter::adv::{ReportOutcome, ScanHandler, ThermoHygroData};
use home_exporter::repository::metrics::MetricsRepository;

const METER: [u8; 6] = [0xFF, 0xEE, 0xDD, 0xCC, 0xBB, 0xAA];
const OTHER: [u8; 6] = [0x01, 0x02, 0x03, 0x04, 0x05, 0x06];

fn meter_advertisement(decimal: u8, integer: u8, humidity: u8) -> Vec<u8> {
    let mfg = [0xD4, 0x03, 0x3C, 0x11, 0x22, 0x33, 0x07, 0x64, decimal, integer, humidity];
    let mut adv = vec![0x02, 0x01, 0x06, 0x0E, 0xFF, 0x69, 0x09];
    adv.extend_from_slice(&mfg);
    adv
}

#[test]
fn records_reading_without_filter() {
    let h = ScanHandler::new();
    let mut repo = MetricsRepository::new();
    let out = h.process_report(&mut repo, OTHER, -60, &meter_advertisement(0x05, 0x99, 0x2D));
    assert_eq!(out, ReportOutcome::Recorded(ThermoHygroData { temperature_tenths: 255, humidity: 45 }));
    assert_eq!(repo.get_temperature(), Some(255));
    assert_eq!(repo.get_humidity(), Some(45));
}

#[test]
fn report_without_manufacturer_data_is_ignored() {
    let h = ScanHandler::new();
    let mut repo = MetricsRepository::new();
    let out = h.process_report(&mut repo, OTHER, -60, &[0x02, 0x01, 0x06]);
    assert_eq!(out, ReportOutcome::NoManufacturerData);
    assert_eq!(repo.get_temperature(), None);
    assert_eq!(repo.get_humidity(), None);
}

#[test]
fn short_manufacturer_data_is_insufficient() {
    let h = ScanHandler::new();
    let mut repo = MetricsRepository::new();
    repo.set_humidity(12);
    let out = h.process_report(&mut repo, OTHER, -60, &[0x05, 0xFF, 0x69, 0x09, 0x01, 0x02]);
    assert_eq!(out, ReportOutcome::InsufficientData);
    assert_eq!(repo.get_temperature(), None);
    assert_eq!(repo.get_humidity(), Some(12));
}

#[test]
fn set_target_mac_addr_parses_reversed() {
    let mut h = ScanHandler::new();
    assert_eq!(h.set_target_mac_addr("AA:BB:CC:DD:EE:FF"), Ok(()));
    let mut repo = MetricsRepository::new();
    let out = h.process_report(&mut repo, METER, -70, &meter_advertisement(0x02, 0x81, 0x30));
    assert_eq!(out, ReportOutcome::Recorded(ThermoHygroData { temperature_tenths: 12, humidity: 48 }));
    assert_eq!(repo.get_temperature(), Some(12));
}

#[test]
fn target_filter_ignores_other_devices() {
    let mut h = ScanHandler::new();
    h.set_target_mac_addr("aa:bb:cc:dd:ee:ff").unwrap();
    let mut repo = MetricsRepository::new();
    let out = h.process_report(&mut repo, OTHER, -70, &meter_advertisement(0x02, 0x81, 0x30));
    assert_eq!(out, ReportOutcome::OtherDevice);
    assert_eq!(repo.get_temperature(), None);
    assert_eq!(repo.get_humidity(), None);
}

#[test]
fn filter_is_checked_only_with_manufacturer_data() {
    let mut h = ScanHandler::new();
    h.set_target_mac_addr("AA:BB:CC:DD:EE:FF").unwrap();
    let mut repo = MetricsRepository::new();
    assert_eq!(h.process_report(&mut repo, OTHER, 0, &[0x02, 0x01, 0x06]), ReportOutcome::NoManufacturerData);
}

#[test]
fn mac_with_wrong_part_count_is_rejected() {
    let mut h = ScanHandler::new();
    assert_eq!(h.set_target_mac_addr("AA:BB:CC:DD:EE"), Err("Error parsing mac address"));
    assert_eq!(h.set_target_mac_addr(""), Err("Error parsing mac address"));
    // the handler still takes every device
    let mut repo = MetricsRepository::new();
    let out = h.process_report(&mut repo, OTHER, -70, &meter_advertisement(0, 0x81, 1));
    assert!(matches!(out, ReportOutcome::Recorded(_)));
}

#[test]
fn failed_mac_keeps_previous_target() {
    let mut h = ScanHandler::new();
    h.set_target_mac_addr("AA:BB:CC:DD:EE:FF").unwrap();
    assert!(h.set_target_mac_addr("01:02").is_err());
    let mut repo = MetricsRepository::new();
    assert_eq!(h.process_report(&mut repo, OTHER, 0, &meter_advertisement(0, 0x81, 1)), ReportOutcome::OtherDevice);
    assert!(matches!(h.process_report(&mut repo, METER, 0, &meter_advertisement(0, 0x81, 1)), ReportOutcome::Recorded(_)));
}

#[test]
fn invalid_mac_parts_count_as_zero() {
    let mut h = ScanHandler::new();
    assert_eq!(h.set_target_mac_addr("zz:+1:0a::100:06"), Ok(()));
    let mut repo = MetricsRepository::new();
    let addr = [0x06, 0x00, 0x00, 0x0A, 0x01, 0x00];
    assert!(matches!(h.process_report(&mut repo, addr, 0, &meter_advertisement(0, 0x81, 1)), ReportOutcome::Recorded(_)));
    assert_eq!(h.process_report(&mut repo, OTHER, 0, &meter_advertisement(0, 0x81, 1)), ReportOutcome::OtherDevice);
}

#[test]
fn logged_address_selects_that_device() {
    let addr = [0x12, 0x34, 0x56, 0x78, 0x9a, 0xbc];
    let text = format!(
        "{:02x}:{:02x}:{:02x}:{:02x}:{:02x}:{:02x}",
        addr[5], addr[4], addr[3], addr[2], addr[1], addr[0]
    );
    let mut h = ScanHandler::new();
    assert_eq!(h.set_target_mac_addr(&text), Ok(()));
    let mut repo = MetricsRepository::new();
    let out = h.process_report(&mut repo, addr, -50, &meter_advertisement(0x09, 0x80 | 19, 55));
    assert_eq!(out, ReportOutcome::Recorded(ThermoHygroData { temperature_tenths: 199, humidity: 55 }));
    assert_eq!(h.process_report(&mut repo, METER, -50, &meter_advertisement(0, 0x81, 1)), ReportOutcome::OtherDevice);
}

#[test]
fn target_device_fares_as_unfiltered() {
    let mut filtered = ScanHandler::new();
    filtered.set_target_mac_addr("AA:BB:CC:DD:EE:FF").unwrap();
    let unfiltered = ScanHandler::new();
    for adv in [meter_advertisement(3, 0x85, 40), vec![0x02, 0x01, 0x06], vec![0x04, 0xFF, 0x69, 0x09, 0x01]] {
        let mut r1 = MetricsRepository::new();
        let mut r2 = MetricsRepository::new();
        assert_eq!(
            filtered.process_report(&mut r1, METER, 0, &adv),
            unfiltered.process_report(&mut r2, METER, 0, &adv)
        );
        assert_eq!(r1.get_temperature(), r2.get_temperature());
    }
}

#[test]
fn mac_letter_case_does_not_matter() {
    let mut lower = ScanHandler::new();
    let mut upper = ScanHandler::new();
    assert_eq!(lower.set_target_mac_addr("aa:bb:cc:dd:ee:ff"), upper.set_target_mac_addr("AA:BB:CC:DD:EE:FF"));
    let mut mixed = ScanHandler::new();
    assert_eq!(mixed.set_target_mac_addr("aA:Bb:cC:Dd:eE:Ff"), Ok(()));
    for h in [&lower, &upper, &mixed] {
        let mut repo = MetricsRepository::new();
        assert!(matches!(h.process_report(&mut repo, METER, 0, &meter_advertisement(0, 0x81, 1)), ReportOutcome::Recorded(_)));
        assert_eq!(h.process_report(&mut repo, OTHER, 0, &meter_advertisement(0, 0x81, 1)), ReportOutcome::OtherDevice);
    }
}
