use vstd::prelude::*;
use crate::bounded::{payload_bytes, AdvPayload, ADV_PAYLOAD_CAPACITY};

verus! {

/// One advertisement report, as the scanner hands it on to the importer:
/// the device address (least significant byte first), the advertisement
/// data and the received signal strength in dBm.
pub struct ScanResult {
    pub addr: [u8; 6],
    pub data: AdvPayload,
    pub rssi: i8,
}

impl ScanResult {
    /// The advertisement data of the report.
    pub fn data(&self) -> (d: &[u8])
        ensures
            d@ == payload_bytes(self.data),
    {
        self.data.as_slice()
    }
}

/// The scan result that an advertisement report becomes: the report's
/// address, data and signal strength. A report whose data is longer than an
/// advertisement payload can hold gives `None` and is dropped.
pub fn scan_result_from_report(addr: [u8; 6], rssi: i8, data: &[u8]) -> (r: Option<ScanResult>)
    ensures
        r is Some <==> data@.len() <= ADV_PAYLOAD_CAPACITY,
        r matches Some(s) ==> s.addr == addr && s.rssi == rssi && payload_bytes(s.data) == data@,
{
    let mut payload = AdvPayload::new();
    match payload.extend_from_slice(data) {
        Ok(()) => {
            assert(Seq::<u8>::empty() + data@ =~= data@);
            Some(ScanResult { addr, data: payload, rssi })
        },
        Err(()) => None,
    }
}

} // verus!
