use home_exporter::importer::sbmeter::adv::{
    extract_local_name, extract_manufacturer_data, parse_thermo_hygro_data, ThermoHygroData,
};

fn meter_data(decimal: u8, integer: u8, humidity: u8) -> Vec<u8> {
    vec![0xD4, 0x03, 0x3C, 0x11, 0x22, 0x33, 0x07, 0x64, decimal, integer, humidity]
}

fn advertisement(mfg: &[u8]) -> Vec<u8> {
    let mut adv = vec![0x02, 0x01, 0x06];
    adv.push((mfg.len() + 3) as u8);
    adv.push(0xFF);
    adv.extend_from_slice(&[0x69, 0x09]);
    adv.extend_from_slice(mfg);
    adv
}

#[test]
fn parses_positive_temperature() {
    let r = parse_thermo_hygro_data(&meter_data(0x05, 0x80 | 25, 45));
    assert_eq!(r, Some(ThermoHygroData { temperature_tenths: 255, humidity: 45 }));
}

#[test]
fn parses_negative_temperature() {
    let r = parse_thermo_hygro_data(&meter_data(0x03, 12, 80));
    assert_eq!(r, Some(ThermoHygroData { temperature_tenths: -123, humidity: 80 }));
}

#[test]
fn masks_unused_bits() {
    // high nibble of the decimal byte and top bit of the humidity byte are ignored
    let r = parse_thermo_hygro_data(&meter_data(0xF7, 0xFF, 0xFF));
    assert_eq!(r, Some(ThermoHygroData { temperature_tenths: 1277, humidity: 127 }));
}

#[test]
fn zero_without_sign_bit_is_zero() {
    let r = parse_thermo_hygro_data(&meter_data(0, 0, 0));
    assert_eq!(r, Some(ThermoHygroData { temperature_tenths: 0, humidity: 0 }));
}

#[test]
fn short_data_gives_none() {
    assert_eq!(parse_thermo_hygro_data(&meter_data(1, 2, 3)[..10]), None);
    assert_eq!(parse_thermo_hygro_data(&[]), None);
}

#[test]
fn extracts_manufacturer_data() {
    let mfg = meter_data(0x05, 0x99, 0x2D);
    let adv = advertisement(&mfg);
    let (company, data) = extract_manufacturer_data(&adv).unwrap();
    assert_eq!(company, 0x0969);
    assert_eq!(data, &mfg[..]);
}

#[test]
fn manufacturer_data_needs_company_id() {
    // a 0xFF structure with one data byte is skipped
    let adv = [0x02, 0xFF, 0x69, 0x04, 0xFF, 0x34, 0x12, 0xAA];
    let (company, data) = extract_manufacturer_data(&adv).unwrap();
    assert_eq!(company, 0x1234);
    assert_eq!(data, &[0xAA][..]);
    let adv = [0x02, 0xFF, 0x69];
    assert_eq!(extract_manufacturer_data(&adv), None);
}

#[test]
fn manufacturer_data_company_id_only() {
    let adv = [0x03, 0xFF, 0x69, 0x09];
    let (company, data) = extract_manufacturer_data(&adv).unwrap();
    assert_eq!(company, 0x0969);
    assert!(data.is_empty());
}

#[test]
fn no_manufacturer_data() {
    assert_eq!(extract_manufacturer_data(&[0x02, 0x01, 0x06]), None);
    assert_eq!(extract_manufacturer_data(&[]), None);
}

#[test]
fn zero_length_stops_search() {
    let adv = [0x00, 0x04, 0xFF, 0x69, 0x09, 0x01];
    assert_eq!(extract_manufacturer_data(&adv), None);
}

#[test]
fn truncated_structure_stops_search() {
    // the structure claims 14 bytes but the buffer ends first
    let mut adv = advertisement(&meter_data(1, 2, 3));
    adv.truncate(adv.len() - 1);
    assert_eq!(extract_manufacturer_data(&adv), None);
}

#[test]
fn extracts_complete_local_name() {
    let adv = [0x02, 0x01, 0x06, 0x05, 0x09, b'W', b'o', b'H', b'a'];
    assert_eq!(extract_local_name(&adv), Some("WoHa"));
}

#[test]
fn extracts_shortened_local_name() {
    let adv = [0x03, 0x08, b'W', b'o', 0x03, 0x09, b'X', b'Y'];
    assert_eq!(extract_local_name(&adv), Some("Wo"));
}

#[test]
fn invalid_utf8_name_gives_none() {
    let adv = [0x03, 0x09, 0xC3, 0x28, 0x03, 0x08, b'o', b'k'];
    assert_eq!(extract_local_name(&adv), None);
}

#[test]
fn utf8_name_is_decoded() {
    let adv = [0x05, 0x09, 0xE6, 0xB8, 0xA9, b'!'];
    assert_eq!(extract_local_name(&adv), Some("温!"));
}

#[test]
fn no_local_name() {
    assert_eq!(extract_local_name(&advertisement(&meter_data(1, 2, 3))), None);
    assert_eq!(extract_local_name(&[0x01]), None);
}

#[test]
fn empty_local_name() {
    assert_eq!(extract_local_name(&[0x01, 0x09]), Some(""));
}
