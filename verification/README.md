# home_exporter

Collects temperature and humidity from a SwitchBot Meter over Bluetooth LE
advertisements on a Raspberry Pi Pico 2 W and keeps wall-clock time with NTP.
The exporter does not send the readings yet: it only makes a test HTTPS GET
to example.com, without verifying the server's certificate, and never reads
the repository.

The library under `src/` is verified with Verus:

- `importer::sbmeter::adv` — decoding of BLE advertisement structures
  (manufacturer data, local name), of the meter's reading, of the target MAC
  address, and the handling of one advertisement report.
- `networking::bluetooth` — turning a radio report into a bounded scan result.
- `repository::metrics` — the store of the latest reading.
- `time` and `time::ntp` — the NTP packet format and the clock that counts
  from the last synchronisation.
- `bounded` — the heapless vectors the library fills, with their contracts.

`app/` is the firmware around it: the embassy tasks, the radio, Wi-Fi, DNS,
UDP and HTTPS I/O, configuration loading and logging.
