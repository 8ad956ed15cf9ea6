use vstd::prelude::*;

verus! {

/// What the repository holds: the last temperature, in tenths of a degree
/// Celsius, and the last relative humidity, in percent; `None` until set.
#[derive(Debug, Clone, Copy, PartialEq, Eq, Structural)]
pub struct MetricsSnapshot {
    pub temperature: Option<i16>,
    pub humidity: Option<u8>,
}

/// The snapshot after a temperature was stored.
pub open spec fn with_temperature(s: MetricsSnapshot, temperature: i16) -> MetricsSnapshot {
    MetricsSnapshot { temperature: Some(temperature), humidity: s.humidity }
}

/// The snapshot after a humidity was stored.
pub open spec fn with_humidity(s: MetricsSnapshot, humidity: u8) -> MetricsSnapshot {
    MetricsSnapshot { temperature: s.temperature, humidity: Some(humidity) }
}

/// The latest measurements, shared between the importer that writes them and
/// the exporter that reads them.
#[derive(Clone, Copy)]
pub struct MetricsRepository {
    temperature: Option<i16>,
    humidity: Option<u8>,
}

impl View for MetricsRepository {
    type V = MetricsSnapshot;

    closed spec fn view(&self) -> MetricsSnapshot {
        MetricsSnapshot { temperature: self.temperature, humidity: self.humidity }
    }
}

impl MetricsRepository {
    /// An empty repository: nothing measured yet.
    pub fn new() -> (r: Self)
        ensures
            r@ == (MetricsSnapshot { temperature: None, humidity: None }),
    {
        Self { temperature: None, humidity: None }
    }

    /// The last temperature stored, in tenths of a degree Celsius.
    pub fn get_temperature(self) -> (t: Option<i16>)
        ensures
            t == self@.temperature,
    {
        self.temperature
    }

    /// Stores a temperature, in tenths of a degree Celsius; the humidity stays.
    pub fn set_temperature(&mut self, temperature: i16)
        ensures
            final(self)@ == with_temperature(old(self)@, temperature),
    {
        self.temperature = Some(temperature);
    }

    /// The last relative humidity stored, in percent.
    pub fn get_humidity(self) -> (h: Option<u8>)
        ensures
            h == self@.humidity,
    {
        self.humidity
    }

    /// Stores a relative humidity, in percent; the temperature stays.
    pub fn set_humidity(&mut self, humidity: u8)
        ensures
            final(self)@ == with_humidity(old(self)@, humidity),
    {
        self.humidity = Some(humidity);
    }
}

/// A read gives back the last write: after storing a temperature the
/// repository reports that temperature, and after storing a humidity it
/// reports that humidity.
pub proof fn law_read_gives_back_write(s: MetricsSnapshot, t: i16, h: u8)
    ensures
        with_temperature(s, t).temperature == Some(t),
        with_humidity(s, h).humidity == Some(h),
{
}

/// Storing one measurement leaves the other as it was.
pub proof fn law_writes_are_independent(s: MetricsSnapshot, t: i16, h: u8)
    ensures
        with_temperature(s, t).humidity == s.humidity,
        with_humidity(s, h).temperature == s.temperature,
        with_humidity(with_temperature(s, t), h) == with_temperature(with_humidity(s, h), t),
{
}

/// A later write of the same measurement replaces the earlier one.
pub proof fn law_last_write_wins(s: MetricsSnapshot, t1: i16, t2: i16, h1: u8, h2: u8)
    ensures
        with_temperature(with_temperature(s, t1), t2) == with_temperature(s, t2),
        with_humidity(with_humidity(s, h1), h2) == with_humidity(s, h2),
{
}

} // verus!
