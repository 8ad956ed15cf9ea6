use vstd::prelude::*;
use vstd::slice::slice_subrange;
use vstd::string::{StrSliceExecFns, StringSliceAdditionalSpecFns};
use vstd::utf8::valid_utf8;
use crate::bounded::{mac_parts_items, MacParts};
use crate::repository::metrics::{with_humidity, with_temperature, MetricsRepository};

verus! {

/// AD type of manufacturer specific data.
pub const AD_TYPE_MANUFACTURER_DATA: u8 = 0xFF;

/// AD type of a complete local name.
pub const AD_TYPE_COMPLETE_LOCAL_NAME: u8 = 0x09;

/// AD type of a shortened local name.
pub const AD_TYPE_SHORTENED_LOCAL_NAME: u8 = 0x08;

/// A reading of a SwitchBot Meter: the temperature in tenths of a degree
/// Celsius and the relative humidity in percent.
#[derive(Debug, Clone, Copy, PartialEq, Eq, Structural)]
pub struct ThermoHygroData {
    pub temperature_tenths: i16,
    pub humidity: u8,
}

/// The reading that the manufacturer data of a SwitchBot Meter broadcast
/// holds: byte 8 carries the tenths of the temperature in its low nibble,
/// byte 9 its whole degrees in the low seven bits and its sign in the top bit
/// (set for a temperature above zero), byte 10 the humidity in its low seven
/// bits. `None` when fewer than 11 bytes are given.
pub open spec fn thermo_hygro_of(data: Seq<u8>) -> Option<ThermoHygroData> {
    if data.len() < 11 {
        None
    } else {
        let magnitude = (data[9] % 128) * 10 + data[8] % 16;
        Some(
            ThermoHygroData {
                temperature_tenths: (if data[9] >= 128 {
                    magnitude
                } else {
                    -magnitude
                }) as i16,
                humidity: data[10] % 128,
            },
        )
    }
}

/// The manufacturer specific data of an advertisement, searched among its AD
/// structures from offset `i` on: each structure is a length byte `len`, a
/// type byte and `len - 1` bytes of data. The search ends at a zero length
/// or at a structure that does not end before the buffer does. The first
/// structure of type 0xFF with at least two data bytes gives the company id
/// (little endian) and the data that follows it.
pub open spec fn manufacturer_data_from(d: Seq<u8>, i: int) -> Option<(u16, Seq<u8>)>
    decreases d.len() - i,
{
    if i < 0 || i >= d.len() {
        None
    } else {
        let len = d[i] as int;
        if len == 0 || i + len >= d.len() {
            None
        } else if d[i + 1] == AD_TYPE_MANUFACTURER_DATA && len >= 3 {
            Some(((d[i + 2] + d[i + 3] * 256) as u16, d.subrange(i + 4, i + 1 + len)))
        } else {
            manufacturer_data_from(d, i + len + 1)
        }
    }
}

/// The manufacturer specific data of a whole advertisement.
pub open spec fn manufacturer_data_of(d: Seq<u8>) -> Option<(u16, Seq<u8>)> {
    manufacturer_data_from(d, 0)
}

/// Where the data of the first local name structure (complete or shortened)
/// lies in an advertisement, searched from offset `i` on, as for
/// `manufacturer_data_from`: a start and an end offset.
pub open spec fn local_name_range_from(d: Seq<u8>, i: int) -> Option<(int, int)>
    decreases d.len() - i,
{
    if i < 0 || i >= d.len() {
        None
    } else {
        let len = d[i] as int;
        if len == 0 || i + len >= d.len() {
            None
        } else if d[i + 1] == AD_TYPE_COMPLETE_LOCAL_NAME || d[i + 1]
            == AD_TYPE_SHORTENED_LOCAL_NAME {
            Some((i + 2, i + 1 + len))
        } else {
            local_name_range_from(d, i + len + 1)
        }
    }
}

/// The bytes of the first local name of an advertisement, if it has one.
pub open spec fn local_name_bytes_of(d: Seq<u8>) -> Option<Seq<u8>> {
    match local_name_range_from(d, 0) {
        Some((start, end)) => Some(d.subrange(start, end)),
        None => None,
    }
}

/// Whether `c` is a digit in base 16.
pub open spec fn is_hex_digit(c: char) -> bool {
    ('0' <= c && c <= '9') || ('a' <= c && c <= 'f') || ('A' <= c && c <= 'F')
}

/// The value of a digit in base 16.
pub open spec fn hex_digit_value(c: char) -> int {
    if '0' <= c && c <= '9' {
        c as int - '0' as int
    } else if 'a' <= c && c <= 'f' {
        c as int - 'a' as int + 10
    } else {
        c as int - 'A' as int + 10
    }
}

/// The value of a string of base-16 digits, most significant first.
pub open spec fn hex_value(digits: Seq<char>) -> int
    decreases digits.len(),
{
    if digits.len() == 0 {
        0
    } else {
        hex_value(digits.drop_last()) * 16 + hex_digit_value(digits.last())
    }
}

/// What `u8::from_str_radix(s, 16)` gives: an optional `+` followed by one
/// or more base-16 digits whose value fits in a byte; anything else fails.
pub open spec fn radix16_u8(s: Seq<char>) -> Option<u8> {
    let digits = radix16_digits(s);
    if digits.len() > 0 && all_hex(digits) && hex_value(digits) <= 255 {
        Some(hex_value(digits) as u8)
    } else {
        None
    }
}

/// The digits of a number text: the text without one leading `+`.
pub open spec fn radix16_digits(s: Seq<char>) -> Seq<char> {
    if s.len() > 0 && s[0] == '+' {
        s.drop_first()
    } else {
        s
    }
}

/// Whether every character of `digits` is a base-16 digit.
pub open spec fn all_hex(digits: Seq<char>) -> bool {
    forall|k: int| 0 <= k < digits.len() ==> is_hex_digit(#[trigger] digits[k])
}

/// The byte that one part of a MAC address gives: its base-16 value, or 0
/// where the part is not a base-16 byte.
pub open spec fn mac_part_value(part: Seq<char>) -> u8 {
    match radix16_u8(part) {
        Some(v) => v,
        None => 0,
    }
}

/// The parts of `s` between colons, as `str::split(':')` gives them: one
/// more part than there are colons, empty parts included.
pub open spec fn split_colons(s: Seq<char>) -> Seq<Seq<char>>
    decreases s.len(),
{
    if s.len() == 0 {
        seq![Seq::<char>::empty()]
    } else {
        let before = split_colons(s.drop_last());
        if s.last() == ':' {
            before.push(Seq::<char>::empty())
        } else {
            before.update(before.len() - 1, before.last().push(s.last()))
        }
    }
}

/// The Bluetooth device address that a MAC address written
/// `AA:BB:CC:DD:EE:FF` names, in the order the radio reports it (least
/// significant byte first). `None` unless the text has exactly six parts.
pub open spec fn mac_address_of(s: Seq<char>) -> Option<Seq<u8>> {
    let parts = split_colons(s);
    if parts.len() == 6 {
        Some(Seq::new(6, |i: int| mac_part_value(parts[5 - i])))
    } else {
        None
    }
}

/// What became of one advertisement report.
#[derive(Debug, Clone, Copy, PartialEq, Eq, Structural)]
pub enum ReportOutcome {
    /// The advertisement holds no manufacturer specific data.
    NoManufacturerData,
    /// A target address is set and the report comes from another device.
    OtherDevice,
    /// The manufacturer data is too short to hold a reading.
    InsufficientData,
    /// The reading was stored in the repository.
    Recorded(ThermoHygroData),
}

/// The outcome of a report from device `addr` with advertisement `data`,
/// where `target` is the address that reports are filtered on, if any.
pub open spec fn report_outcome(target: Option<Seq<u8>>, addr: Seq<u8>, data: Seq<u8>) -> ReportOutcome {
    match manufacturer_data_of(data) {
        None => ReportOutcome::NoManufacturerData,
        Some((_, mfg)) => {
            if target is Some && target->0 != addr {
                ReportOutcome::OtherDevice
            } else {
                match thermo_hygro_of(mfg) {
                    None => ReportOutcome::InsufficientData,
                    Some(t) => ReportOutcome::Recorded(t),
                }
            }
        },
    }
}

/// Decodes a SwitchBot Meter reading from its manufacturer data.
pub fn parse_thermo_hygro_data(data: &[u8]) -> (r: Option<ThermoHygroData>)
    ensures
        r == thermo_hygro_of(data@),
{
    if data.len() < 11 {
        return None;
    }
    let temp_decimal_byte = data[8];
    let temp_integer_byte = data[9];
    let humidity_byte = data[10];

    let temperature_decimal = temp_decimal_byte & 0x0F;
    let temperature_positive = (temp_integer_byte & 0x80) != 0;
    let temperature_integer = temp_integer_byte & 0x7F;
    let humidity = humidity_byte & 0x7F;
    assert(temperature_decimal == temp_decimal_byte % 16) by (bit_vector)
        requires
            temperature_decimal == temp_decimal_byte & 0x0F,
    ;
    assert(temperature_positive == (temp_integer_byte >= 128)) by (bit_vector)
        requires
            temperature_positive == ((temp_integer_byte & 0x80) != 0),
    ;
    assert(temperature_integer == temp_integer_byte % 128) by (bit_vector)
        requires
            temperature_integer == temp_integer_byte & 0x7F,
    ;
    assert(humidity == humidity_byte % 128) by (bit_vector)
        requires
            humidity == humidity_byte & 0x7F,
    ;

    let magnitude = (temperature_integer as i16) * 10 + (temperature_decimal as i16);
    let temperature_tenths = if temperature_positive {
        magnitude
    } else {
        -magnitude
    };
    Some(ThermoHygroData { temperature_tenths, humidity })
}

/// Finds the manufacturer specific data of an advertisement: the company id
/// and the bytes after it.
pub fn extract_manufacturer_data(adv_data: &[u8]) -> (r: Option<(u16, &[u8])>)
    ensures
        match r {
            Some((company_id, data)) => manufacturer_data_of(adv_data@) == Some(
                (company_id, data@),
            ),
            None => manufacturer_data_of(adv_data@) is None,
        },
{
    let n = adv_data.len();
    let mut i: usize = 0;
    while i < n
        invariant
            n == adv_data@.len(),
            i <= n,
            manufacturer_data_from(adv_data@, i as int) == manufacturer_data_of(adv_data@),
        decreases n - i,
    {
        let len = adv_data[i] as usize;
        if len == 0 || len >= n - i {
            return None;
        }
        let ad_type = adv_data[i + 1];
        if ad_type == AD_TYPE_MANUFACTURER_DATA {
            let data_start = i + 2;
            let data_end = i + 1 + len;
            if data_end <= n && data_end - data_start >= 2 {
                let company_id = (adv_data[data_start] as u16) + (adv_data[data_start + 1] as u16)
                    * 256;
                let manufacturer_data = slice_subrange(adv_data, data_start + 2, data_end);
                return Some((company_id, manufacturer_data));
            }
        }
        i = i + len + 1;
    }
    None
}

/// `core::str::from_utf8`: the bytes as a string slice when they are valid
/// UTF-8, the string slice holding exactly those bytes.
#[verifier::external_body]
fn utf8_str(bytes: &[u8]) -> (r: Option<&str>)
    ensures
        r is Some <==> valid_utf8(bytes@),
        r matches Some(s) ==> s.spec_bytes() == bytes@,
{
    core::str::from_utf8(bytes).ok()
}

/// Finds the local name of an advertisement: the first complete or shortened
/// local name structure, as a string when its bytes are valid UTF-8.
pub fn extract_local_name(adv_data: &[u8]) -> (r: Option<&str>)
    ensures
        match r {
            Some(name) => local_name_bytes_of(adv_data@) == Some(name.spec_bytes()),
            None => match local_name_bytes_of(adv_data@) {
                Some(b) => !valid_utf8(b),
                None => true,
            },
        },
{
    let n = adv_data.len();
    let mut i: usize = 0;
    while i < n
        invariant
            n == adv_data@.len(),
            i <= n,
            local_name_range_from(adv_data@, i as int) == local_name_range_from(adv_data@, 0),
        decreases n - i,
    {
        let len = adv_data[i] as usize;
        if len == 0 || len >= n - i {
            return None;
        }
        let ad_type = adv_data[i + 1];
        if ad_type == AD_TYPE_COMPLETE_LOCAL_NAME || ad_type == AD_TYPE_SHORTENED_LOCAL_NAME {
            return utf8_str(slice_subrange(adv_data, i + 2, i + 1 + len));
        }
        i = i + len + 1;
    }
    None
}

/// `u8::from_str_radix(s, 16)`, its error dropped.
#[verifier::external_body]
fn parse_hex_u8(s: &str) -> (r: Option<u8>)
    ensures
        r == radix16_u8(s@),
{
    u8::from_str_radix(s, 16).ok()
}

/// Receives advertisement reports and stores the readings of a SwitchBot
/// Meter, optionally only those of one device.
pub struct ScanHandler {
    filter_addr: Option<[u8; 6]>,
}

impl View for ScanHandler {
    /// The address that reports are filtered on, if any.
    type V = Option<Seq<u8>>;

    closed spec fn view(&self) -> Option<Seq<u8>> {
        match self.filter_addr {
            Some(a) => Some(a@),
            None => None,
        }
    }
}

impl ScanHandler {
    /// A handler that takes reports from every device.
    pub fn new() -> (h: Self)
        ensures
            h@ is None,
    {
        Self { filter_addr: None }
    }

    /// Restricts the handler to the device whose MAC address is written
    /// `AA:BB:CC:DD:EE:FF` (base-16 bytes between colons; a part that is not a
    /// base-16 byte counts as 0). Fails, and keeps the handler as it was,
    /// unless there are exactly six parts. More than six parts are outside
    /// what the handler takes.
    pub fn set_target_mac_addr(&mut self, addr: &str) -> (r: Result<(), &'static str>)
        requires
            split_colons(addr@).len() <= 6,
        ensures
            r is Ok <==> mac_address_of(addr@) is Some,
            r is Ok ==> final(self)@ == mac_address_of(addr@),
            r is Err ==> final(self)@ == old(self)@,
            r matches Err(e) ==> e@ == "Error parsing mac address"@,
    {
        let n = addr.unicode_len();
        let ghost s = addr@;
        let mut parts = MacParts::new();
        let mut start: usize = 0;
        let mut i: usize = 0;
        while i < n
            invariant
                n == s.len(),
                s == addr@,
                start <= i <= n,
                split_colons(s).len() <= 6,
                mac_parts_items(parts) == split_colons(s.take(i as int)).drop_last(),
                split_colons(s.take(i as int)).len() >= 1,
                split_colons(s.take(i as int)).last() == s.subrange(start as int, i as int),
            decreases n - i,
        {
            proof {
                lemma_split_colons_prefix_len(s, i as int + 1);
                assert(s.take(i as int + 1).drop_last() =~= s.take(i as int));
                assert(s.take(i as int + 1).last() == s[i as int]);
            }
            let c = addr.get_char(i);
            if c == ':' {
                let part = addr.substring_char(start, i);
                let pushed = parts.push(part);
                assert(pushed is Ok);
                start = i + 1;
                assert(s.subrange(start as int, i as int + 1) =~= Seq::<char>::empty());
            } else {
                assert(s.subrange(start as int, i as int + 1) =~= s.subrange(
                    start as int,
                    i as int,
                ).push(c));
            }
            i = i + 1;
        }
        let last = addr.substring_char(start, n);
        assert(s.take(n as int) =~= s);
        let pushed = parts.push(last);
        assert(pushed is Ok);
        assert(mac_parts_items(parts) =~= split_colons(s));

        if parts.len() != 6 {
            return Err("Error parsing mac address");
        }
        let mut bytes = [0u8; 6];
        let mut j: usize = 0;
        while j < 6
            invariant
                mac_parts_items(parts) == split_colons(s),
                split_colons(s).len() == 6,
                j <= 6,
                forall|k: int| 0 <= k < j ==> bytes@[5 - k] == mac_part_value(split_colons(s)[k]),
            decreases 6 - j,
        {
            let v = match parse_hex_u8(parts.get(j)) {
                Some(v) => v,
                None => 0,
            };
            bytes[5 - j] = v;
            j = j + 1;
        }
        self.filter_addr = Some(bytes);
        assert(bytes@ =~= mac_address_of(s)->0);
        Ok(())
    }

    /// Handles one advertisement report from device `addr`: a report with
    /// manufacturer data, from the target device where one is set, whose data
    /// holds a reading, has that reading stored in `repository`; any other
    /// report leaves `repository` as it was. The signal strength only serves
    /// the log.
    pub fn process_report(
        &self,
        repository: &mut MetricsRepository,
        addr: [u8; 6],
        rssi: i8,
        data: &[u8],
    ) -> (r: ReportOutcome)
        ensures
            r == report_outcome(self@, addr@, data@),
            match r {
                ReportOutcome::Recorded(t) => final(repository)@ == with_humidity(
                    with_temperature(old(repository)@, t.temperature_tenths),
                    t.humidity,
                ),
                _ => final(repository)@ == old(repository)@,
            },
    {
        let (_company_id, mfg_data) = match extract_manufacturer_data(data) {
            Some(found) => found,
            None => return ReportOutcome::NoManufacturerData,
        };
        if let Some(target_addr) = &self.filter_addr {
            if !same_address(&addr, target_addr) {
                return ReportOutcome::OtherDevice;
            }
        }
        match parse_thermo_hygro_data(mfg_data) {
            Some(reading) => {
                repository.set_temperature(reading.temperature_tenths);
                repository.set_humidity(reading.humidity);
                ReportOutcome::Recorded(reading)
            },
            None => ReportOutcome::InsufficientData,
        }
    }
}

/// Whether two device addresses are the same.
fn same_address(a: &[u8; 6], b: &[u8; 6]) -> (r: bool)
    ensures
        r == (a@ == b@),
{
    let mut k: usize = 0;
    while k < 6
        invariant
            k <= 6,
            forall|m: int| 0 <= m < k ==> a@[m] == b@[m],
        decreases 6 - k,
    {
        if a[k] != b[k] {
            return false;
        }
        k = k + 1;
    }
    assert(a@ =~= b@);
    true
}

/// Only the target device's readings are recorded: with a target address
/// set, a report that gets recorded came from that address.
pub proof fn law_only_target_recorded(target: Seq<u8>, addr: Seq<u8>, data: Seq<u8>)
    ensures
        report_outcome(Some(target), addr, data) is Recorded ==> addr == target,
        addr != target && manufacturer_data_of(data) is Some ==> report_outcome(
            Some(target),
            addr,
            data,
        ) == ReportOutcome::OtherDevice,
{
}

/// Filtering changes nothing for the target device itself: its reports fare
/// as they would with no target set.
pub proof fn law_target_fares_as_unfiltered(target: Seq<u8>, data: Seq<u8>)
    ensures
        report_outcome(Some(target), target, data) == report_outcome(None, target, data),
{
}

/// A reading stays within what its bytes can encode: at most 127.5 degrees
/// either side of zero, and a humidity of at most 127 percent.
pub proof fn law_reading_bounds(data: Seq<u8>)
    ensures
        thermo_hygro_of(data) matches Some(t) ==> -1285 <= t.temperature_tenths <= 1285
            && t.humidity <= 127,
{
}

/// Whether `m` is the stretch of `d` that starts at offset `k` and `id` the
/// little-endian value of the two bytes before it.
pub open spec fn found_at(d: Seq<u8>, k: int, id: u16, m: Seq<u8>) -> bool {
    2 <= k && k + m.len() <= d.len() && m == d.subrange(k, k + m.len()) && id == d[k - 2] + d[k
        - 1] * 256
}

/// The manufacturer data found in an advertisement is a stretch of it, and
/// the company id is the two bytes just before that stretch, least
/// significant first.
pub proof fn law_manufacturer_data_is_part_of_advertisement(d: Seq<u8>)
    ensures
        manufacturer_data_of(d) is Some ==> exists|k: int| #[trigger]
            found_at(d, k, manufacturer_data_of(d).unwrap().0, manufacturer_data_of(d).unwrap().1),
{
    lemma_manufacturer_data_from_is_part(d, 0);
}

proof fn lemma_manufacturer_data_from_is_part(d: Seq<u8>, i: int)
    requires
        0 <= i,
    ensures
        manufacturer_data_from(d, i) is Some ==> exists|k: int| #[trigger]
            found_at(d, k, manufacturer_data_from(d, i).unwrap().0, manufacturer_data_from(d, i).unwrap().1),
    decreases d.len() - i,
{
    if 0 <= i < d.len() {
        let len = d[i] as int;
        if len == 0 || i + len >= d.len() {
        } else if d[i + 1] == AD_TYPE_MANUFACTURER_DATA && len >= 3 {
            let k = i + 4;
            let m = d.subrange(i + 4, i + 1 + len);
            assert(m == d.subrange(k, k + m.len()));
            let id = (d[k - 2] + d[k - 1] * 256) as u16;
            assert(id == d[k - 2] + d[k - 1] * 256);
            assert(manufacturer_data_from(d, i) == Some((id, m)));
            assert(found_at(d, k, id, m));
            assert(found_at(
                d,
                k,
                manufacturer_data_from(d, i).unwrap().0,
                manufacturer_data_from(d, i).unwrap().1,
            ));
        } else {
            lemma_manufacturer_data_from_is_part(d, i + len + 1);
            assert(manufacturer_data_from(d, i) == manufacturer_data_from(d, i + len + 1));
        }
    }
}

/// Whether `m` is the data of an AD structure of type 0xFF in `d` that
/// starts at offset `k - 4`: its length byte counts the type byte, the two
/// bytes of company id `id` (least significant first) and `m`.
pub open spec fn manufacturer_structure_at(d: Seq<u8>, k: int, id: u16, m: Seq<u8>) -> bool {
    &&& 4 <= k
    &&& k + m.len() <= d.len()
    &&& d[k - 4] as int == m.len() + 3
    &&& d[k - 3] == 0xFF
    &&& id as int == d[k - 2] as int + 256 * (d[k - 1] as int)
    &&& forall|j: int| 0 <= j < m.len() ==> #[trigger] m[j] == d[k + j]
}

/// Manufacturer data only ever comes from a structure of type 0xFF: what is
/// found is the data of such a structure in the advertisement, with its
/// length byte, type byte and company id in front of it.
pub proof fn law_manufacturer_data_comes_from_type_ff(d: Seq<u8>)
    ensures
        manufacturer_data_of(d) is Some ==> exists|k: int| #[trigger]
            manufacturer_structure_at(
                d,
                k,
                manufacturer_data_of(d).unwrap().0,
                manufacturer_data_of(d).unwrap().1,
            ),
{
    lemma_manufacturer_data_from_structure(d, 0);
}

proof fn lemma_manufacturer_data_from_structure(d: Seq<u8>, i: int)
    requires
        0 <= i,
    ensures
        manufacturer_data_from(d, i) is Some ==> exists|k: int| #[trigger]
            manufacturer_structure_at(
                d,
                k,
                manufacturer_data_from(d, i).unwrap().0,
                manufacturer_data_from(d, i).unwrap().1,
            ),
    decreases d.len() - i,
{
    if i < d.len() {
        let n = d[i] as int;
        if n != 0 && i + n < d.len() {
            lemma_manufacturer_data_from_structure(d, i + n + 1);
            if manufacturer_data_from(d, i) is Some && manufacturer_data_from(d, i)
                != manufacturer_data_from(d, i + n + 1) {
                let r = manufacturer_data_from(d, i).unwrap();
                assert(r.1 =~= d.subrange(i + 4, i + 1 + n));
                assert(manufacturer_structure_at(d, i + 4, r.0, r.1));
            }
        }
    }
}

/// An advertisement that begins with a complete structure of type 0xFF
/// holding a company id gives that structure's company id (least
/// significant byte first) and the bytes after it.
pub proof fn law_leading_manufacturer_structure_is_found(d: Seq<u8>)
    requires
        3 <= d[0] < d.len(),
        d[1] == 0xFF,
    ensures
        manufacturer_data_of(d) == Some(
            ((d[2] as int + 256 * (d[3] as int)) as u16, d.subrange(4, d[0] as int + 1)),
        ),
{
}

/// A complete structure that is not manufacturer data (another type, or too
/// short to hold a company id) is passed over: the search goes on with the
/// structures after it.
pub proof fn law_other_structure_is_skipped(d: Seq<u8>)
    requires
        0 < d[0] < d.len(),
        d[1] != 0xFF || d[0] < 3,
    ensures
        manufacturer_data_of(d) == manufacturer_data_of(d.skip(d[0] as int + 1)),
{
    lemma_manufacturer_data_shift(d, d[0] as int + 1, 0);
}

/// Searching from offset `j + i` of `d` is searching from offset `i` of what
/// follows the first `j` bytes.
proof fn lemma_manufacturer_data_shift(d: Seq<u8>, j: int, i: int)
    requires
        0 <= j <= d.len(),
        0 <= i,
    ensures
        manufacturer_data_from(d, j + i) == manufacturer_data_from(d.skip(j), i),
    decreases d.len() - (j + i),
{
    let e = d.skip(j);
    if j + i < d.len() {
        assert(e[i] == d[j + i]);
        let n = d[j + i] as int;
        if n != 0 && j + i + n < d.len() {
            assert(e[i + 1] == d[j + i + 1]);
            if n >= 3 {
                assert(e[i + 2] == d[j + i + 2]);
                assert(e[i + 3] == d[j + i + 3]);
                assert(e.subrange(i + 4, i + 1 + n) =~= d.subrange(j + i + 4, j + i + 1 + n));
            }
            lemma_manufacturer_data_shift(d, j, i + n + 1);
            assert(j + (i + n + 1) == j + i + n + 1);
        }
    }
}

/// A reading holds whenever there are at least 11 bytes. Its sign is the top
/// bit of byte 9 alone (set: above zero, clear: below or at zero); its
/// magnitude is the whole degrees in the other seven bits of byte 9 and the
/// tenths in the low nibble of byte 8; its humidity is the low seven bits of
/// byte 10. Fewer than 11 bytes hold no reading.
pub proof fn law_reading_decodes_bytes(data: Seq<u8>)
    ensures
        data.len() < 11 ==> thermo_hygro_of(data) is None,
        data.len() >= 11 ==> thermo_hygro_of(data) is Some,
        data.len() >= 11 && data[9] >= 0x80 ==> thermo_hygro_of(data).unwrap().temperature_tenths
            == (data[9] - 0x80) * 10 + data[8] % 16,
        data.len() >= 11 && data[9] < 0x80 ==> thermo_hygro_of(data).unwrap().temperature_tenths
            == -(data[9] * 10 + data[8] % 16),
        data.len() >= 11 ==> thermo_hygro_of(data).unwrap().humidity == data[10] % 128,
{
}

/// The sign bit decides the sign: a reading below zero has the top bit of
/// byte 9 clear, a reading above zero has it set, and with the bit clear
/// and a non-zero magnitude the reading is below zero.
pub proof fn law_reading_sign(data: Seq<u8>)
    requires
        data.len() >= 11,
    ensures
        thermo_hygro_of(data).unwrap().temperature_tenths < 0 ==> data[9] < 0x80,
        thermo_hygro_of(data).unwrap().temperature_tenths > 0 ==> data[9] >= 0x80,
        data[9] < 0x80 && (data[9] > 0 || data[8] % 16 > 0) ==> thermo_hygro_of(
            data,
        ).unwrap().temperature_tenths < 0,
{
}

/// Every reading that a report carries is stored, whatever its sign: a
/// report whose manufacturer data holds at least 11 bytes, from the target
/// device or from any device when there is no target, is recorded with the
/// reading those bytes hold. A report is found too short only when its
/// manufacturer data has fewer than 11 bytes.
pub proof fn law_every_reading_is_recorded(target: Option<Seq<u8>>, addr: Seq<u8>, data: Seq<u8>)
    ensures
        manufacturer_data_of(data) is Some && manufacturer_data_of(data).unwrap().1.len() >= 11 && (
        target is None || target == Some(addr)) ==> report_outcome(target, addr, data)
            == ReportOutcome::Recorded(thermo_hygro_of(manufacturer_data_of(data).unwrap().1).unwrap()),
        report_outcome(target, addr, data) == ReportOutcome::InsufficientData ==> (
        manufacturer_data_of(data) is Some && manufacturer_data_of(data).unwrap().1.len() < 11),
        report_outcome(target, addr, data) is Recorded ==> (manufacturer_data_of(data) is Some
            && manufacturer_data_of(data).unwrap().1.len() >= 11 && thermo_hygro_of(
            manufacturer_data_of(data).unwrap().1,
        ) == Some(report_outcome(target, addr, data)->Recorded_0)),
{
    if manufacturer_data_of(data) is Some {
        law_reading_decodes_bytes(manufacturer_data_of(data).unwrap().1);
    }
}

/// An advertisement that begins with a complete local name structure
/// (complete or shortened) names the bytes after its type byte.
pub proof fn law_leading_local_name_is_found(d: Seq<u8>)
    requires
        0 < d[0] < d.len(),
        d[1] == 0x09 || d[1] == 0x08,
    ensures
        local_name_bytes_of(d) == Some(d.subrange(2, d[0] as int + 1)),
{
}

/// A complete structure of any other type is passed over in the search for
/// a local name.
pub proof fn law_other_structure_has_no_name(d: Seq<u8>)
    requires
        0 < d[0] < d.len(),
        d[1] != 0x09 && d[1] != 0x08,
    ensures
        local_name_bytes_of(d) == local_name_bytes_of(d.skip(d[0] as int + 1)),
{
    lemma_local_name_shift(d, d[0] as int + 1, 0);
    let e = d.skip(d[0] as int + 1);
    lemma_local_name_range_bounds(e, 0);
    match local_name_range_from(e, 0) {
        Some((a, b)) => {
            assert(d.subrange(d[0] as int + 1 + a, d[0] as int + 1 + b) =~= e.subrange(a, b));
        },
        None => {},
    }
}

proof fn lemma_local_name_range_bounds(d: Seq<u8>, i: int)
    requires
        0 <= i,
    ensures
        local_name_range_from(d, i) is Some ==> 0 <= local_name_range_from(d, i).unwrap().0
            <= local_name_range_from(d, i).unwrap().1 <= d.len(),
    decreases d.len() - i,
{
    if i < d.len() {
        let n = d[i] as int;
        if n != 0 && i + n < d.len() {
            lemma_local_name_range_bounds(d, i + n + 1);
        }
    }
}

/// The local-name search from offset `j + i` of `d` is the search from
/// offset `i` of what follows the first `j` bytes, moved by `j`.
proof fn lemma_local_name_shift(d: Seq<u8>, j: int, i: int)
    requires
        0 <= j <= d.len(),
        0 <= i,
    ensures
        local_name_range_from(d, j + i) == match local_name_range_from(d.skip(j), i) {
            Some((a, b)) => Some((j + a, j + b)),
            None => None,
        },
    decreases d.len() - (j + i),
{
    let e = d.skip(j);
    if j + i < d.len() {
        assert(e[i] == d[j + i]);
        let n = d[j + i] as int;
        if n != 0 && j + i + n < d.len() {
            assert(e[i + 1] == d[j + i + 1]);
            lemma_local_name_shift(d, j, i + n + 1);
            assert(j + (i + n + 1) == j + i + n + 1);
        }
    }
}

/// The number of colons in a text.
pub open spec fn colon_count(s: Seq<char>) -> nat
    decreases s.len(),
{
    if s.len() == 0 {
        0
    } else {
        colon_count(s.drop_last()) + if s.last() == ':' {
            1nat
        } else {
            0nat
        }
    }
}

/// A MAC address text names a device exactly when it holds five colons;
/// the setter takes texts of at most five colons.
pub proof fn law_mac_address_needs_five_colons(s: Seq<char>)
    ensures
        split_colons(s).len() == colon_count(s) + 1,
        mac_address_of(s) is Some <==> colon_count(s) == 5,
    decreases s.len(),
{
    if s.len() > 0 {
        law_mac_address_needs_five_colons(s.drop_last());
    }
}

/// The lowercase base-16 digit of a value below 16.
pub open spec fn hex_digit_char(v: int) -> char {
    if v == 0 {
        '0'
    } else if v == 1 {
        '1'
    } else if v == 2 {
        '2'
    } else if v == 3 {
        '3'
    } else if v == 4 {
        '4'
    } else if v == 5 {
        '5'
    } else if v == 6 {
        '6'
    } else if v == 7 {
        '7'
    } else if v == 8 {
        '8'
    } else if v == 9 {
        '9'
    } else if v == 10 {
        'a'
    } else if v == 11 {
        'b'
    } else if v == 12 {
        'c'
    } else if v == 13 {
        'd'
    } else if v == 14 {
        'e'
    } else {
        'f'
    }
}

/// A byte as two lowercase base-16 digits.
pub open spec fn byte_text(b: u8) -> Seq<char> {
    seq![hex_digit_char(b as int / 16), hex_digit_char(b as int % 16)]
}

/// A device address (least significant byte first) written the way the scan
/// log prints it: most significant byte first, each byte as two base-16
/// digits, the bytes separated by colons.
pub open spec fn mac_text(a: Seq<u8>) -> Seq<char> {
    byte_text(a[5]) + seq![':'] + byte_text(a[4]) + seq![':'] + byte_text(a[3]) + seq![':']
        + byte_text(a[2]) + seq![':'] + byte_text(a[1]) + seq![':'] + byte_text(a[0])
}

/// An address copied from the scan log into the configuration selects that
/// very device: the text the log prints parses back to the address.
pub proof fn law_logged_address_parses_back(a: Seq<u8>)
    requires
        a.len() == 6,
    ensures
        mac_address_of(mac_text(a)) == Some(a),
{
    let e = Seq::<char>::empty();
    let colon = seq![':'];
    let t5 = byte_text(a[5]);
    let t4 = byte_text(a[4]);
    let t3 = byte_text(a[3]);
    let t2 = byte_text(a[2]);
    let t1 = byte_text(a[1]);
    let t0 = byte_text(a[0]);
    lemma_byte_text_has_no_colon(a[5]);
    lemma_byte_text_has_no_colon(a[4]);
    lemma_byte_text_has_no_colon(a[3]);
    lemma_byte_text_has_no_colon(a[2]);
    lemma_byte_text_has_no_colon(a[1]);
    lemma_byte_text_has_no_colon(a[0]);

    lemma_split_colons_append_part(e, t5);
    assert(e + t5 =~= t5);
    let s1 = t5 + colon;
    lemma_split_colons_append_colon(t5);
    lemma_split_colons_append_part(s1, t4);
    let s2 = s1 + t4 + colon;
    lemma_split_colons_append_colon(s1 + t4);
    lemma_split_colons_append_part(s2, t3);
    let s3 = s2 + t3 + colon;
    lemma_split_colons_append_colon(s2 + t3);
    lemma_split_colons_append_part(s3, t2);
    let s4 = s3 + t2 + colon;
    lemma_split_colons_append_colon(s3 + t2);
    lemma_split_colons_append_part(s4, t1);
    let s5 = s4 + t1 + colon;
    lemma_split_colons_append_colon(s4 + t1);
    lemma_split_colons_append_part(s5, t0);
    assert(s5 + t0 =~= mac_text(a));
    let parts = split_colons(mac_text(a));
    assert(parts =~= seq![t5, t4, t3, t2, t1, t0]);

    lemma_byte_text_parses(a[5]);
    lemma_byte_text_parses(a[4]);
    lemma_byte_text_parses(a[3]);
    lemma_byte_text_parses(a[2]);
    lemma_byte_text_parses(a[1]);
    lemma_byte_text_parses(a[0]);
    assert(mac_address_of(mac_text(a))->0 =~= a);
}

proof fn lemma_byte_text_has_no_colon(b: u8)
    ensures
        forall|k: int| 0 <= k < byte_text(b).len() ==> #[trigger] byte_text(b)[k] != ':',
        byte_text(b).len() == 2,
{
}

proof fn lemma_hex_digit_char_value(v: int)
    requires
        0 <= v < 16,
    ensures
        is_hex_digit(hex_digit_char(v)),
        hex_digit_value(hex_digit_char(v)) == v,
{
}

proof fn lemma_byte_text_parses(b: u8)
    ensures
        mac_part_value(byte_text(b)) == b,
{
    let t = byte_text(b);
    lemma_hex_digit_char_value(b as int / 16);
    lemma_hex_digit_char_value(b as int % 16);
    assert(t[0] != '+');
    assert(t.drop_last() =~= seq![t[0]]);
    let u = seq![t[0]];
    assert(u.drop_last() =~= Seq::<char>::empty());
    assert(u.last() == t[0]);
    assert(hex_value(Seq::<char>::empty()) == 0);
    assert(hex_value(u) == hex_digit_value(t[0]));
    assert(hex_value(t) == (b as int / 16) * 16 + b as int % 16);
    assert(forall|k: int| 0 <= k < t.len() ==> is_hex_digit(#[trigger] t[k]));
    assert(radix16_digits(t) == t);
    assert(all_hex(t));
}

/// Appending text without colons to `p` extends the last part of `p`.
proof fn lemma_split_colons_append_part(p: Seq<char>, t: Seq<char>)
    requires
        forall|k: int| 0 <= k < t.len() ==> #[trigger] t[k] != ':',
    ensures
        split_colons(p + t) == split_colons(p).update(
            split_colons(p).len() - 1,
            split_colons(p).last() + t,
        ),
        split_colons(p).len() >= 1,
    decreases t.len(),
{
    lemma_split_colons_nonempty(p);
    if t.len() == 0 {
        assert(p + t =~= p);
        assert(split_colons(p).last() + t =~= split_colons(p).last());
        assert(split_colons(p).update(split_colons(p).len() - 1, split_colons(p).last() + t)
            =~= split_colons(p));
    } else {
        let t0 = t.drop_last();
        assert forall|k: int| 0 <= k < t0.len() implies #[trigger] t0[k] != ':' by {
            assert(t0[k] == t[k]);
        }
        lemma_split_colons_append_part(p, t0);
        let sp = split_colons(p);
        let before = split_colons(p + t0);
        assert((p + t).drop_last() =~= p + t0);
        assert((p + t).last() == t.last());
        assert(t[t.len() - 1] != ':');
        assert(before.len() == sp.len());
        assert(before.last() == sp.last() + t0);
        assert((sp.last() + t0).push(t.last()) =~= sp.last() + t);
        assert(split_colons(p + t) == before.update(before.len() - 1, before.last().push(
            (p + t).last(),
        )));
        assert(split_colons(p + t) =~= sp.update(sp.len() - 1, sp.last() + t));
    }
}

/// Appending a colon to `p` starts a new, empty part.
proof fn lemma_split_colons_append_colon(p: Seq<char>)
    ensures
        split_colons(p + seq![':']) == split_colons(p).push(Seq::<char>::empty()),
{
    assert((p + seq![':']).drop_last() =~= p);
}

proof fn lemma_split_colons_nonempty(s: Seq<char>)
    ensures
        split_colons(s).len() >= 1,
    decreases s.len(),
{
    if s.len() > 0 {
        lemma_split_colons_nonempty(s.drop_last());
    }
}

/// Whether `c` is a base-16 digit written as a letter.
pub open spec fn is_hex_letter(c: char) -> bool {
    ('a' <= c && c <= 'f') || ('A' <= c && c <= 'F')
}

/// Whether two characters are the same, or the same base-16 digit written
/// in different letter case.
pub open spec fn same_up_to_hex_case(c: char, d: char) -> bool {
    c == d || (is_hex_letter(c) && is_hex_letter(d) && hex_digit_value(c) == hex_digit_value(d))
}

/// Whether two texts are equal but for the letter case of base-16 digits.
pub open spec fn texts_same_up_to_hex_case(a: Seq<char>, b: Seq<char>) -> bool {
    a.len() == b.len() && forall|k: int|
        0 <= k < a.len() ==> #[trigger] same_up_to_hex_case(a[k], b[k])
}

/// The letter case of base-16 digits does not matter: two MAC address texts
/// that differ only in it, such as `aa:bb:cc:dd:ee:ff` and
/// `AA:BB:CC:DD:EE:FF`, have the same number of parts and name the same
/// device, so the target setter treats them alike.
pub proof fn law_mac_address_ignores_hex_case(a: Seq<char>, b: Seq<char>)
    requires
        texts_same_up_to_hex_case(a, b),
    ensures
        split_colons(a).len() == split_colons(b).len(),
        mac_address_of(a) == mac_address_of(b),
{
    lemma_split_colons_same_up_to_hex_case(a, b);
    let pa = split_colons(a);
    let pb = split_colons(b);
    if pa.len() == 6 {
        assert forall|i: int| 0 <= i < 6 implies mac_part_value(pa[i]) == mac_part_value(pb[i]) by {
            lemma_radix16_same_up_to_hex_case(pa[i], pb[i]);
        }
        assert(mac_address_of(a)->0 =~= mac_address_of(b)->0);
    }
}

proof fn lemma_texts_same_prefix(a: Seq<char>, b: Seq<char>)
    requires
        texts_same_up_to_hex_case(a, b),
        a.len() > 0,
    ensures
        texts_same_up_to_hex_case(a.drop_last(), b.drop_last()),
        texts_same_up_to_hex_case(a.drop_first(), b.drop_first()),
        same_up_to_hex_case(a.last(), b.last()),
        same_up_to_hex_case(a[0], b[0]),
{
    assert(same_up_to_hex_case(a[a.len() - 1], b[b.len() - 1]));
    assert(same_up_to_hex_case(a[0], b[0]));
    assert forall|k: int| 0 <= k < a.drop_last().len() implies #[trigger] same_up_to_hex_case(
        a.drop_last()[k],
        b.drop_last()[k],
    ) by {
        assert(same_up_to_hex_case(a[k], b[k]));
    }
    assert forall|k: int| 0 <= k < a.drop_first().len() implies #[trigger] same_up_to_hex_case(
        a.drop_first()[k],
        b.drop_first()[k],
    ) by {
        assert(same_up_to_hex_case(a[k + 1], b[k + 1]));
    }
}

/// Texts equal up to hex letter case split into parts equal up to hex
/// letter case.
proof fn lemma_split_colons_same_up_to_hex_case(a: Seq<char>, b: Seq<char>)
    requires
        texts_same_up_to_hex_case(a, b),
    ensures
        split_colons(a).len() == split_colons(b).len(),
        forall|i: int|
            0 <= i < split_colons(a).len() ==> texts_same_up_to_hex_case(
                #[trigger] split_colons(a)[i],
                split_colons(b)[i],
            ),
    decreases a.len(),
{
    if a.len() == 0 {
        assert(b.len() == 0);
        assert(texts_same_up_to_hex_case(Seq::<char>::empty(), Seq::<char>::empty()));
    } else {
        lemma_texts_same_prefix(a, b);
        lemma_split_colons_same_up_to_hex_case(a.drop_last(), b.drop_last());
        lemma_split_colons_nonempty(a.drop_last());
        let pa = split_colons(a.drop_last());
        let pb = split_colons(b.drop_last());
        assert((a.last() == ':') == (b.last() == ':'));
        if a.last() == ':' {
            assert(texts_same_up_to_hex_case(Seq::<char>::empty(), Seq::<char>::empty()));
            assert forall|i: int| 0 <= i < split_colons(a).len() implies texts_same_up_to_hex_case(
                #[trigger] split_colons(a)[i],
                split_colons(b)[i],
            ) by {
                if i < pa.len() {
                    assert(split_colons(a)[i] == pa[i]);
                    assert(split_colons(b)[i] == pb[i]);
                }
            }
        } else {
            let la = pa.last().push(a.last());
            let lb = pb.last().push(b.last());
            assert(texts_same_up_to_hex_case(pa.last(), pb.last()));
            assert forall|k: int| 0 <= k < la.len() implies #[trigger] same_up_to_hex_case(
                la[k],
                lb[k],
            ) by {
                if k < pa.last().len() {
                    assert(same_up_to_hex_case(pa.last()[k], pb.last()[k]));
                }
            }
            assert(texts_same_up_to_hex_case(la, lb));
            assert forall|i: int| 0 <= i < split_colons(a).len() implies texts_same_up_to_hex_case(
                #[trigger] split_colons(a)[i],
                split_colons(b)[i],
            ) by {
                if i < pa.len() - 1 {
                    assert(split_colons(a)[i] == pa[i]);
                    assert(split_colons(b)[i] == pb[i]);
                }
            }
        }
    }
}

/// Number texts equal up to hex letter case have the same value.
proof fn lemma_hex_value_same_up_to_hex_case(a: Seq<char>, b: Seq<char>)
    requires
        texts_same_up_to_hex_case(a, b),
    ensures
        all_hex(a) == all_hex(b),
        all_hex(a) ==> hex_value(a) == hex_value(b),
    decreases a.len(),
{
    if a.len() > 0 {
        lemma_texts_same_prefix(a, b);
        lemma_hex_value_same_up_to_hex_case(a.drop_last(), b.drop_last());
        if all_hex(a) {
            assert forall|k: int| 0 <= k < b.len() implies is_hex_digit(#[trigger] b[k]) by {
                assert(is_hex_digit(a[k]));
                assert(same_up_to_hex_case(a[k], b[k]));
            }
            assert forall|k: int| 0 <= k < a.drop_last().len() implies is_hex_digit(
                #[trigger] a.drop_last()[k],
            ) by {
                assert(is_hex_digit(a[k]));
            }
            assert(is_hex_digit(a[a.len() - 1]));
        }
        if all_hex(b) {
            assert forall|k: int| 0 <= k < a.len() implies is_hex_digit(#[trigger] a[k]) by {
                assert(is_hex_digit(b[k]));
                assert(same_up_to_hex_case(a[k], b[k]));
            }
        }
    }
}

/// Texts equal up to hex letter case parse to the same byte.
proof fn lemma_radix16_same_up_to_hex_case(a: Seq<char>, b: Seq<char>)
    requires
        texts_same_up_to_hex_case(a, b),
    ensures
        radix16_u8(a) == radix16_u8(b),
{
    if a.len() > 0 {
        lemma_texts_same_prefix(a, b);
        assert((a[0] == '+') == (b[0] == '+'));
    }
    lemma_hex_value_same_up_to_hex_case(radix16_digits(a), radix16_digits(b));
}

/// Splitting a longer text never gives fewer parts.
proof fn lemma_split_colons_prefix_len(s: Seq<char>, i: int)
    requires
        0 <= i <= s.len(),
    ensures
        split_colons(s.take(i)).len() <= split_colons(s).len(),
    decreases s.len() - i,
{
    if i < s.len() {
        lemma_split_colons_prefix_len(s, i + 1);
        assert(s.take(i + 1).drop_last() =~= s.take(i));
    } else {
        assert(s.take(i) =~= s);
    }
}

} // verus!
